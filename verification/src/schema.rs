//! The schema catalog: every logical field of a post, its physical name,
//! its kind, and typed accessors over index documents.

use vstd::prelude::*;

use crate::chars::str_chars;
use crate::datetime::{spec_format_view, DateTimeFormat, UtcDateTime};
use crate::lang::Lang;

verus! {

/// Every logical field of a post document. The set is closed: each field has
/// exactly one physical name and one kind.
#[derive(Debug, Clone, Copy, PartialEq, Eq, Structural)]
pub enum PostField {
    Uuid,
    Slug,
    Title,
    Description,
    Lang,
    Category,
    Tags,
    Body,
    RawText,
    CreatedAt,
    UpdatedAt,
    CreatedAtFormat,
    UpdatedAtFormat,
}

/// The physical field name of a logical field.
pub open spec fn spec_field_name(f: PostField) -> Seq<char> {
    match f {
        PostField::Uuid => "uuid"@,
        PostField::Slug => "slug"@,
        PostField::Title => "title"@,
        PostField::Description => "description"@,
        PostField::Lang => "lang"@,
        PostField::Category => "category"@,
        PostField::Tags => "tags"@,
        PostField::Body => "body"@,
        PostField::RawText => "raw_text"@,
        PostField::CreatedAt => "created_at"@,
        PostField::UpdatedAt => "updated_at"@,
        PostField::CreatedAtFormat => "created_at_format"@,
        PostField::UpdatedAtFormat => "updated_at_format"@,
    }
}

/// Whether a field holds text a caller may read back.
pub open spec fn spec_is_text_field(f: PostField) -> bool {
    match f {
        PostField::Uuid | PostField::Slug | PostField::Title | PostField::Lang
            | PostField::Description | PostField::Category | PostField::Tags | PostField::Body
            | PostField::CreatedAtFormat | PostField::UpdatedAtFormat => true,
        _ => false,
    }
}

/// Whether a field holds an instant.
pub open spec fn spec_is_date_field(f: PostField) -> bool {
    f == PostField::CreatedAt || f == PostField::UpdatedAt
}

/// Whether a field is indexed only and never stored.
pub open spec fn spec_is_not_stored(f: PostField) -> bool {
    f == PostField::RawText
}

/// Every field belongs to exactly one of the three access classes: readable
/// text, date, or index-only. No field can be added without choosing one.
pub proof fn lemma_field_classification(f: PostField)
    ensures
        spec_is_text_field(f) != (spec_is_date_field(f) || spec_is_not_stored(f)),
        !(spec_is_date_field(f) && spec_is_not_stored(f)),
{
}

impl PostField {
    /// The physical field name.
    pub fn as_str(&self) -> (r: &'static str)
        ensures
            r@ == spec_field_name(*self),
    {
        match self {
            PostField::Uuid => "uuid",
            PostField::Slug => "slug",
            PostField::Title => "title",
            PostField::Description => "description",
            PostField::Lang => "lang",
            PostField::Category => "category",
            PostField::Tags => "tags",
            PostField::Body => "body",
            PostField::RawText => "raw_text",
            PostField::CreatedAt => "created_at",
            PostField::UpdatedAt => "updated_at",
            PostField::CreatedAtFormat => "created_at_format",
            PostField::UpdatedAtFormat => "updated_at_format",
        }
    }

    /// The fields a caller may read back as text, in catalog order.
    pub fn text_fields() -> (r: Vec<PostField>)
        ensures
            r@.len() == 10,
            forall|i: int| 0 <= i < r@.len() ==> spec_is_text_field(#[trigger] r@[i]),
            r@ =~= seq![
                PostField::Uuid,
                PostField::Slug,
                PostField::Title,
                PostField::Lang,
                PostField::Description,
                PostField::Category,
                PostField::Tags,
                PostField::Body,
                PostField::CreatedAtFormat,
                PostField::UpdatedAtFormat,
            ],
    {
        let mut v: Vec<PostField> = Vec::new();
        v.push(PostField::Uuid);
        v.push(PostField::Slug);
        v.push(PostField::Title);
        v.push(PostField::Lang);
        v.push(PostField::Description);
        v.push(PostField::Category);
        v.push(PostField::Tags);
        v.push(PostField::Body);
        v.push(PostField::CreatedAtFormat);
        v.push(PostField::UpdatedAtFormat);
        v
    }

    /// The date fields.
    pub fn date_fields() -> (r: Vec<PostField>)
        ensures
            r@ =~= seq![PostField::CreatedAt, PostField::UpdatedAt],
            forall|i: int| 0 <= i < r@.len() ==> spec_is_date_field(#[trigger] r@[i]),
    {
        let mut v: Vec<PostField> = Vec::new();
        v.push(PostField::CreatedAt);
        v.push(PostField::UpdatedAt);
        v
    }

    /// The index-only fields (the historical spelling is kept).
    pub fn not_stored_fileds() -> (r: Vec<PostField>)
        ensures
            r@ =~= seq![PostField::RawText],
            forall|i: int| 0 <= i < r@.len() ==> spec_is_not_stored(#[trigger] r@[i]),
    {
        let mut v: Vec<PostField> = Vec::new();
        v.push(PostField::RawText);
        v
    }
}

/// How a field is indexed and stored.
#[derive(Debug, Clone, Copy, PartialEq, Eq, Structural)]
pub enum FieldEntryKind {
    /// Stored, indexed with the default tokenizer.
    StoredText,
    /// Stored, indexed with the raw (exact-match) tokenizer.
    RawToken,
    /// Stored, indexed with a language's tokenizer.
    LangText(Lang),
    /// Indexed with a language's tokenizer, not stored.
    LangTextNoStore(Lang),
    /// Stored, fast (sortable) date.
    Date,
}

/// One catalog entry: a logical field and its kind.
#[derive(Debug, Clone, Copy, PartialEq, Eq, Structural)]
pub struct FieldConfig {
    pub field: PostField,
    pub kind: FieldEntryKind,
}

/// Collects catalog entries in declaration order.
pub struct SchemaConstructor {
    pub schema_builder: Vec<FieldConfig>,
}

impl SchemaConstructor {
    /// An empty catalog.
    pub fn new() -> (r: Self)
        ensures
            r.schema_builder@ =~= Seq::<FieldConfig>::empty(),
    {
        SchemaConstructor { schema_builder: Vec::new() }
    }

    /// Declares stored default-tokenizer text fields.
    pub fn build_simple_text_fields(&mut self, fields: &Vec<PostField>)
        ensures
            final(self).schema_builder@ == old(self).schema_builder@ + fields@.map_values(
                |f: PostField| FieldConfig { field: f, kind: FieldEntryKind::StoredText },
            ),
    {
        let n = fields.len();
        let mut i: usize = 0;
        while i < n
            invariant
                n == fields@.len(),
                i <= n,
                self.schema_builder@ == old(self).schema_builder@ + fields@.subrange(
                    0,
                    i as int,
                ).map_values(|f: PostField| FieldConfig { field: f, kind: FieldEntryKind::StoredText }),
            decreases n - i,
        {
            self.schema_builder.push(FieldConfig { field: fields[i], kind: FieldEntryKind::StoredText });
            assert(self.schema_builder@ =~= old(self).schema_builder@ + fields@.subrange(
                0,
                i + 1,
            ).map_values(|f: PostField| FieldConfig { field: f, kind: FieldEntryKind::StoredText }));
            i = i + 1;
        }
        assert(fields@.subrange(0, n as int) =~= fields@);
    }

    /// Declares stored, sortable date fields.
    pub fn build_date_fields(&mut self, fields: &Vec<PostField>)
        ensures
            final(self).schema_builder@ == old(self).schema_builder@ + fields@.map_values(
                |f: PostField| FieldConfig { field: f, kind: FieldEntryKind::Date },
            ),
    {
        let n = fields.len();
        let mut i: usize = 0;
        while i < n
            invariant
                n == fields@.len(),
                i <= n,
                self.schema_builder@ == old(self).schema_builder@ + fields@.subrange(
                    0,
                    i as int,
                ).map_values(|f: PostField| FieldConfig { field: f, kind: FieldEntryKind::Date }),
            decreases n - i,
        {
            self.schema_builder.push(FieldConfig { field: fields[i], kind: FieldEntryKind::Date });
            assert(self.schema_builder@ =~= old(self).schema_builder@ + fields@.subrange(
                0,
                i + 1,
            ).map_values(|f: PostField| FieldConfig { field: f, kind: FieldEntryKind::Date }));
            i = i + 1;
        }
        assert(fields@.subrange(0, n as int) =~= fields@);
    }

    /// Declares stored text fields indexed with an exact-match or language
    /// tokenizer: the raw tokenizer when `lang` is `None`, else the
    /// language's one.
    pub fn build_custom_tokenizer_text_field(&mut self, lang: Option<Lang>, fields: &Vec<PostField>)
        ensures
            final(self).schema_builder@ == old(self).schema_builder@ + fields@.map_values(
                |f: PostField|
                    FieldConfig {
                        field: f,
                        kind: match lang {
                            Some(l) => FieldEntryKind::LangText(l),
                            None => FieldEntryKind::RawToken,
                        },
                    },
            ),
    {
        let n = fields.len();
        let mut i: usize = 0;
        while i < n
            invariant
                n == fields@.len(),
                i <= n,
                self.schema_builder@ == old(self).schema_builder@ + fields@.subrange(
                    0,
                    i as int,
                ).map_values(
                    |f: PostField|
                        FieldConfig {
                            field: f,
                            kind: match lang {
                                Some(l) => FieldEntryKind::LangText(l),
                                None => FieldEntryKind::RawToken,
                            },
                        },
                ),
            decreases n - i,
        {
            let kind = match lang {
                Some(l) => FieldEntryKind::LangText(l),
                None => FieldEntryKind::RawToken,
            };
            self.schema_builder.push(FieldConfig { field: fields[i], kind });
            assert(self.schema_builder@ =~= old(self).schema_builder@ + fields@.subrange(
                0,
                i + 1,
            ).map_values(
                |f: PostField|
                    FieldConfig {
                        field: f,
                        kind: match lang {
                            Some(l) => FieldEntryKind::LangText(l),
                            None => FieldEntryKind::RawToken,
                        },
                    },
            ));
            i = i + 1;
        }
        assert(fields@.subrange(0, n as int) =~= fields@);
    }

    /// Declares index-only text fields with a language's tokenizer.
    pub fn build_custom_tokenizer_text_field_no_stored(&mut self, lang: Lang, fields: &Vec<PostField>)
        ensures
            final(self).schema_builder@ == old(self).schema_builder@ + fields@.map_values(
                |f: PostField| FieldConfig { field: f, kind: FieldEntryKind::LangTextNoStore(lang) },
            ),
    {
        let n = fields.len();
        let mut i: usize = 0;
        while i < n
            invariant
                n == fields@.len(),
                i <= n,
                self.schema_builder@ == old(self).schema_builder@ + fields@.subrange(
                    0,
                    i as int,
                ).map_values(
                    |f: PostField| FieldConfig { field: f, kind: FieldEntryKind::LangTextNoStore(lang) },
                ),
            decreases n - i,
        {
            self.schema_builder.push(
                FieldConfig { field: fields[i], kind: FieldEntryKind::LangTextNoStore(lang) },
            );
            assert(self.schema_builder@ =~= old(self).schema_builder@ + fields@.subrange(
                0,
                i + 1,
            ).map_values(
                |f: PostField| FieldConfig { field: f, kind: FieldEntryKind::LangTextNoStore(lang) },
            ));
            i = i + 1;
        }
        assert(fields@.subrange(0, n as int) =~= fields@);
    }
}

/// The catalog this library declares, one entry per field.
pub open spec fn spec_catalog() -> Seq<FieldConfig> {
    seq![
        FieldConfig { field: PostField::Body, kind: FieldEntryKind::StoredText },
        FieldConfig { field: PostField::Tags, kind: FieldEntryKind::StoredText },
        FieldConfig { field: PostField::CreatedAtFormat, kind: FieldEntryKind::StoredText },
        FieldConfig { field: PostField::UpdatedAtFormat, kind: FieldEntryKind::StoredText },
        FieldConfig { field: PostField::Uuid, kind: FieldEntryKind::RawToken },
        FieldConfig { field: PostField::Slug, kind: FieldEntryKind::RawToken },
        FieldConfig { field: PostField::Category, kind: FieldEntryKind::RawToken },
        FieldConfig { field: PostField::Lang, kind: FieldEntryKind::RawToken },
        FieldConfig { field: PostField::Title, kind: FieldEntryKind::LangText(Lang::Ja) },
        FieldConfig { field: PostField::Description, kind: FieldEntryKind::LangText(Lang::Ja) },
        FieldConfig { field: PostField::RawText, kind: FieldEntryKind::LangTextNoStore(Lang::Ja) },
        FieldConfig { field: PostField::CreatedAt, kind: FieldEntryKind::Date },
        FieldConfig { field: PostField::UpdatedAt, kind: FieldEntryKind::Date },
    ]
}

/// The immutable catalog, built once at process start.
pub struct Schema {
    pub entries: Vec<FieldConfig>,
}

impl Schema {
    /// Well-formedness: exactly this library's catalog.
    pub open spec fn wf(self) -> bool {
        self.entries@ =~= spec_catalog()
    }
}

/// Builds the catalog: plain stored text for the body, the joined tags and
/// the two notation markers; exact-match fields for the identity and filter
/// fields; language-tokenized text for the prose fields, the plain search
/// text index-only; and two sortable date fields.
pub fn build_schema() -> (r: Schema)
    ensures
        r.wf(),
{
    let mut constructor = SchemaConstructor::new();

    let mut simple: Vec<PostField> = Vec::new();
    simple.push(PostField::Body);
    simple.push(PostField::Tags);
    simple.push(PostField::CreatedAtFormat);
    simple.push(PostField::UpdatedAtFormat);
    constructor.build_simple_text_fields(&simple);

    let mut raw: Vec<PostField> = Vec::new();
    raw.push(PostField::Uuid);
    raw.push(PostField::Slug);
    raw.push(PostField::Category);
    raw.push(PostField::Lang);
    constructor.build_custom_tokenizer_text_field(None, &raw);

    let mut prose: Vec<PostField> = Vec::new();
    prose.push(PostField::Title);
    prose.push(PostField::Description);
    constructor.build_custom_tokenizer_text_field(Some(Lang::Ja), &prose);

    let mut search_only: Vec<PostField> = Vec::new();
    search_only.push(PostField::RawText);
    constructor.build_custom_tokenizer_text_field_no_stored(Lang::Ja, &search_only);

    let mut dates: Vec<PostField> = Vec::new();
    dates.push(PostField::CreatedAt);
    dates.push(PostField::UpdatedAt);
    constructor.build_date_fields(&dates);

    let schema = Schema { entries: constructor.schema_builder };
    assert(schema.entries@ =~= spec_catalog());
    schema
}

// ---------------------------------------------------------------------------
// Index documents and typed access to their fields
// ---------------------------------------------------------------------------

/// The flattened, store-native representation of a post: one value per
/// logical field. Tags are one space-joined string (lossy for tags that
/// contain spaces — a documented limitation); the two notation markers
/// record how the dates were written; the plain search text is present only
/// when the document was built from a parsed post.
#[derive(Debug)]
pub struct IndexDoc {
    pub uuid: String,
    pub slug: String,
    pub title: String,
    pub description: String,
    pub lang: String,
    pub category: String,
    pub tags: String,
    pub body: String,
    pub raw_text: Option<String>,
    pub created_at: UtcDateTime,
    pub updated_at: UtcDateTime,
    pub created_at_format: String,
    pub updated_at_format: String,
}

/// The view of an optional string.
pub open spec fn opt_str_view(o: Option<String>) -> Option<Seq<char>> {
    match o {
        Some(s) => Some(s@),
        None => None,
    }
}

impl IndexDoc {
    /// Well-formedness: both instants are on the calendar.
    pub open spec fn wf(self) -> bool {
        self.created_at.valid() && self.updated_at.valid()
    }

    /// Document equality, by content.
    pub open spec fn doc_eq(self, other: Self) -> bool {
        &&& self.uuid@ == other.uuid@
        &&& self.slug@ == other.slug@
        &&& self.title@ == other.title@
        &&& self.description@ == other.description@
        &&& self.lang@ == other.lang@
        &&& self.category@ == other.category@
        &&& self.tags@ == other.tags@
        &&& self.body@ == other.body@
        &&& opt_str_view(self.raw_text) == opt_str_view(other.raw_text)
        &&& self.created_at == other.created_at
        &&& self.updated_at == other.updated_at
        &&& self.created_at_format@ == other.created_at_format@
        &&& self.updated_at_format@ == other.updated_at_format@
    }
}

impl Clone for IndexDoc {
    fn clone(&self) -> (r: Self)
        ensures
            r == *self,
    {
        IndexDoc {
            uuid: self.uuid.clone(),
            slug: self.slug.clone(),
            title: self.title.clone(),
            description: self.description.clone(),
            lang: self.lang.clone(),
            category: self.category.clone(),
            tags: self.tags.clone(),
            body: self.body.clone(),
            raw_text: match &self.raw_text {
                Some(t) => Some(t.clone()),
                None => None,
            },
            created_at: self.created_at,
            updated_at: self.updated_at,
            created_at_format: self.created_at_format.clone(),
            updated_at_format: self.updated_at_format.clone(),
        }
    }
}

/// The error of a typed accessor used against the wrong kind of field: a
/// programming-contract error, recoverable so that a corrupted index can be
/// diagnosed rather than crash the process.
#[derive(Debug, Clone, Copy, PartialEq, Eq, Structural)]
pub enum SchemaError {
    /// The field is indexed only and cannot be read back.
    NotStored(PostField),
    /// The field does not hold text.
    NotText(PostField),
    /// The field does not hold an instant.
    NotDate(PostField),
}

impl SchemaError {
    /// A human-readable description of the error.
    pub fn message(&self) -> (r: &'static str) {
        match self {
            SchemaError::NotStored(_) => "is not stored field",
            SchemaError::NotText(_) => "is not text field",
            SchemaError::NotDate(_) => "is not date field",
        }
    }
}

/// The text a readable text field holds.
pub open spec fn spec_doc_text(doc: IndexDoc, field: PostField) -> Seq<char> {
    match field {
        PostField::Uuid => doc.uuid@,
        PostField::Slug => doc.slug@,
        PostField::Title => doc.title@,
        PostField::Description => doc.description@,
        PostField::Lang => doc.lang@,
        PostField::Category => doc.category@,
        PostField::Tags => doc.tags@,
        PostField::Body => doc.body@,
        PostField::CreatedAtFormat => doc.created_at_format@,
        PostField::UpdatedAtFormat => doc.updated_at_format@,
        _ => Seq::empty(),
    }
}

/// The instant a date field holds.
pub open spec fn spec_doc_date(doc: IndexDoc, field: PostField) -> UtcDateTime {
    if field == PostField::CreatedAt {
        doc.created_at
    } else {
        doc.updated_at
    }
}

// ---------------------------------------------------------------------------
// Splitting and joining the tags field
// ---------------------------------------------------------------------------

/// The space-separated tokens of `s[i..]`, with `cur` the token being read;
/// empty tokens are dropped.
pub open spec fn spec_tokens_from(s: Seq<char>, i: int, cur: Seq<char>) -> Seq<Seq<char>>
    decreases s.len() - i,
{
    if i >= s.len() {
        if cur.len() > 0 {
            seq![cur]
        } else {
            Seq::empty()
        }
    } else if s[i] == ' ' {
        if cur.len() > 0 {
            seq![cur] + spec_tokens_from(s, i + 1, Seq::empty())
        } else {
            spec_tokens_from(s, i + 1, Seq::empty())
        }
    } else {
        spec_tokens_from(s, i + 1, cur.push(s[i]))
    }
}

/// The space-separated tokens of a joined tags string.
pub open spec fn spec_split_tags(s: Seq<char>) -> Seq<Seq<char>> {
    spec_tokens_from(s, 0, Seq::empty())
}

/// The views of a vector of strings.
pub open spec fn strs_view(v: Seq<String>) -> Seq<Seq<char>> {
    v.map_values(|t: String| t@)
}

/// Splits a joined tags string on spaces, dropping empty tokens.
pub fn split_tags(s: &String) -> (r: Vec<String>)
    ensures
        strs_view(r@) == spec_split_tags(s@),
{
    let chars = str_chars(s.as_str());
    let n = chars.len();
    let mut out: Vec<String> = Vec::new();
    let mut cur: Vec<char> = Vec::new();
    let mut i: usize = 0;
    while i < n
        invariant
            n == chars@.len(),
            chars@ == s@,
            i <= n,
            spec_split_tags(s@) == strs_view(out@) + spec_tokens_from(s@, i as int, cur@),
        decreases n - i,
    {
        let c = chars[i];
        if c == ' ' {
            if cur.len() > 0 {
                let tok = crate::chars::chars_string(&cur);
                let ghost prev = out@;
                let ghost cur_old = cur@;
                out.push(tok);
                assert(strs_view(out@) =~= strs_view(prev) + seq![cur_old]);
                cur = Vec::new();
                proof {
                    assert(spec_tokens_from(s@, i as int, cur_old) == seq![cur_old]
                        + spec_tokens_from(s@, i + 1, Seq::empty()));
                    assert((strs_view(prev) + seq![cur_old]) + spec_tokens_from(
                        s@,
                        i + 1,
                        Seq::empty(),
                    ) =~= strs_view(prev) + (seq![cur_old] + spec_tokens_from(
                        s@,
                        i + 1,
                        Seq::empty(),
                    )));
                    assert(cur@ =~= Seq::<char>::empty());
                }
            } else {
                proof {
                    assert(cur@ =~= Seq::<char>::empty());
                }
            }
        } else {
            cur.push(c);
        }
        i = i + 1;
    }
    if cur.len() > 0 {
        let tok = crate::chars::chars_string(&cur);
        let ghost prev = out@;
        out.push(tok);
        assert(strs_view(out@) =~= strs_view(prev) + seq![cur@]);
    }
    assert(strs_view(out@) =~= spec_split_tags(s@));
    out
}

/// The tags joined into one string with single spaces between them.
pub open spec fn spec_join_tags(ts: Seq<Seq<char>>) -> Seq<char>
    decreases ts.len(),
{
    if ts.len() == 0 {
        Seq::empty()
    } else if ts.len() == 1 {
        ts[0]
    } else {
        ts[0] + seq![' '] + spec_join_tags(ts.drop_first())
    }
}

/// Appending one more tag appends a space and the tag (just the tag when
/// the list was empty).
pub proof fn lemma_join_push(v: Seq<Seq<char>>, t: Seq<char>)
    ensures
        spec_join_tags(v.push(t)) == if v.len() == 0 {
            t
        } else {
            spec_join_tags(v) + seq![' '] + t
        },
    decreases v.len(),
{
    if v.len() == 0 {
        assert(v.push(t)[0] == t);
        assert(spec_join_tags(v.push(t)) == t);
    } else if v.len() == 1 {
        assert(v.push(t).drop_first() =~= seq![t]);
        assert(spec_join_tags(seq![t]) == t);
        assert(v.push(t)[0] == v[0]);
        assert(spec_join_tags(v.push(t)) == v[0] + seq![' '] + t);
    } else {
        assert(v.push(t).drop_first() =~= v.drop_first().push(t));
        lemma_join_push(v.drop_first(), t);
    }
}

/// Joins tags with single spaces.
pub fn join_tags(ts: &Vec<String>) -> (r: String)
    ensures
        r@ == spec_join_tags(strs_view(ts@)),
{
    let n = ts.len();
    let mut out: Vec<char> = Vec::new();
    let mut i: usize = 0;
    while i < n
        invariant
            n == ts@.len(),
            i <= n,
            out@ == spec_join_tags(strs_view(ts@).subrange(0, i as int)),
        decreases n - i,
    {
        if i > 0 {
            out.push(' ');
        }
        crate::chars::extend_str(&mut out, ts[i].as_str());
        proof {
            let v = strs_view(ts@);
            lemma_join_push(v.subrange(0, i as int), v[i as int]);
            assert(v.subrange(0, i + 1) =~= v.subrange(0, i as int).push(v[i as int]));
        }
        i = i + 1;
    }
    proof {
        assert(strs_view(ts@).subrange(0, n as int) =~= strs_view(ts@));
    }
    crate::chars::chars_string(&out)
}

// ---------------------------------------------------------------------------
// Typed accessors
// ---------------------------------------------------------------------------

/// The catalog kind of each field.
pub open spec fn spec_catalog_kind(f: PostField) -> FieldEntryKind {
    match f {
        PostField::Body | PostField::Tags | PostField::CreatedAtFormat
            | PostField::UpdatedAtFormat => FieldEntryKind::StoredText,
        PostField::Uuid | PostField::Slug | PostField::Category | PostField::Lang
            => FieldEntryKind::RawToken,
        PostField::Title | PostField::Description => FieldEntryKind::LangText(Lang::Ja),
        PostField::RawText => FieldEntryKind::LangTextNoStore(Lang::Ja),
        PostField::CreatedAt | PostField::UpdatedAt => FieldEntryKind::Date,
    }
}

/// Typed access to index documents, checked against the catalog.
pub struct FieldGetter<'a> {
    pub schema: &'a Schema,
}

impl<'a> FieldGetter<'a> {
    /// An accessor over the given catalog.
    pub fn new(schema: &'a Schema) -> (r: Self)
        ensures
            r.schema == schema,
    {
        FieldGetter { schema }
    }

    /// The catalog entry of a logical field.
    #[verifier::rlimit(100)]
    pub fn get_field(&self, field: PostField) -> (r: FieldConfig)
        requires
            self.schema.wf(),
        ensures
            r.field == field,
            r.kind == spec_catalog_kind(field),
    {
        let n = self.schema.entries.len();
        let mut i: usize = 0;
        while i < n
            invariant
                self.schema.wf(),
                n == self.schema.entries@.len(),
                i <= n,
                forall|j: int| 0 <= j < i ==> (#[trigger] self.schema.entries@[j]).field != field,
            decreases n - i,
        {
            let entry = self.schema.entries[i];
            if entry.field == field {
                assert(entry == spec_catalog()[i as int]);
                assert(entry.kind == spec_catalog_kind(field));
                return entry;
            }
            i = i + 1;
        }
        proof {
            let k = match field {
                PostField::Body => 0int,
                PostField::Tags => 1,
                PostField::CreatedAtFormat => 2,
                PostField::UpdatedAtFormat => 3,
                PostField::Uuid => 4,
                PostField::Slug => 5,
                PostField::Category => 6,
                PostField::Lang => 7,
                PostField::Title => 8,
                PostField::Description => 9,
                PostField::RawText => 10,
                PostField::CreatedAt => 11,
                PostField::UpdatedAt => 12,
            };
            assert(self.schema.entries@[k].field == field);
            assert(false);
        }
        FieldConfig { field, kind: FieldEntryKind::StoredText }
    }

    /// The text a field holds; an error for the index-only field and for
    /// date fields.
    pub fn get_text(&self, doc: &IndexDoc, field: PostField) -> (r: Result<String, SchemaError>)
        ensures
            match r {
                Ok(t) => spec_is_text_field(field) && t@ == spec_doc_text(*doc, field),
                Err(SchemaError::NotStored(f)) => f == field && spec_is_not_stored(field),
                Err(SchemaError::NotText(f)) => f == field && spec_is_date_field(field),
                Err(_) => false,
            },
    {
        match field {
            PostField::RawText => Err(SchemaError::NotStored(field)),
            PostField::CreatedAt | PostField::UpdatedAt => Err(SchemaError::NotText(field)),
            PostField::Uuid => Ok(doc.uuid.clone()),
            PostField::Slug => Ok(doc.slug.clone()),
            PostField::Title => Ok(doc.title.clone()),
            PostField::Description => Ok(doc.description.clone()),
            PostField::Lang => Ok(doc.lang.clone()),
            PostField::Category => Ok(doc.category.clone()),
            PostField::Tags => Ok(doc.tags.clone()),
            PostField::Body => Ok(doc.body.clone()),
            PostField::CreatedAtFormat => Ok(doc.created_at_format.clone()),
            PostField::UpdatedAtFormat => Ok(doc.updated_at_format.clone()),
        }
    }

    /// The instant a date field holds; an error for every other field.
    pub fn get_date(&self, doc: &IndexDoc, field: PostField) -> (r: Result<UtcDateTime, SchemaError>)
        ensures
            match r {
                Ok(dt) => spec_is_date_field(field) && dt == spec_doc_date(*doc, field),
                Err(SchemaError::NotDate(f)) => f == field && !spec_is_date_field(field),
                Err(_) => false,
            },
    {
        match field {
            PostField::CreatedAt => Ok(doc.created_at),
            PostField::UpdatedAt => Ok(doc.updated_at),
            _ => Err(SchemaError::NotDate(field)),
        }
    }

    /// A date field reproduced in the notation its companion marker names.
    pub fn get_date_as_str(&self, doc: &IndexDoc, field: PostField) -> (r: Result<
        String,
        SchemaError,
    >)
        requires
            doc.wf(),
        ensures
            match r {
                Ok(t) => {
                    &&& spec_is_date_field(field)
                    &&& field == PostField::CreatedAt ==> t@ == spec_format_view(
                        crate::datetime::spec_notation_of_marker(doc.created_at_format@),
                        doc.created_at,
                    )
                    &&& field == PostField::UpdatedAt ==> t@ == spec_format_view(
                        crate::datetime::spec_notation_of_marker(doc.updated_at_format@),
                        doc.updated_at,
                    )
                },
                Err(SchemaError::NotDate(f)) => f == field && !spec_is_date_field(field),
                Err(_) => false,
            },
    {
        match field {
            PostField::CreatedAt => {
                let dfmt = DateTimeFormat::from_marker(doc.created_at_format.as_str());
                proof {
                    crate::datetime::lemma_format_view_agrees(dfmt, doc.created_at);
                }
                Ok(dfmt.format(&doc.created_at))
            },
            PostField::UpdatedAt => {
                let dfmt = DateTimeFormat::from_marker(doc.updated_at_format.as_str());
                proof {
                    crate::datetime::lemma_format_view_agrees(dfmt, doc.updated_at);
                }
                Ok(dfmt.format(&doc.updated_at))
            },
            _ => Err(SchemaError::NotDate(field)),
        }
    }

    /// The tags of a document: the joined field split on spaces, empty
    /// tokens dropped.
    pub fn get_tags(&self, doc: &IndexDoc) -> (r: Result<Vec<String>, SchemaError>)
        ensures
            match r {
                Ok(ts) => strs_view(ts@) == spec_split_tags(doc.tags@),
                Err(_) => false,
            },
    {
        Ok(split_tags(&doc.tags))
    }

    /// The public JSON projection of a document: every stored field, dates
    /// in their written notation, the plain search text never.
    pub fn to_json(&self, doc: &IndexDoc) -> (r: Result<JSONDcument, SchemaError>)
        requires
            doc.wf(),
        ensures
            match r {
                Ok(j) => spec_json_of(*doc, j),
                Err(_) => false,
            },
    {
        let mut jd = JSONDcument::new();
        jd.uuid = Some(doc.uuid.clone());
        jd.slug = Some(doc.slug.clone());
        jd.title = Some(doc.title.clone());
        jd.description = Some(doc.description.clone());
        jd.category = Some(doc.category.clone());
        jd.lang = Some(doc.lang.clone());
        jd.tags = Some(split_tags(&doc.tags));
        jd.body = Some(doc.body.clone());
        let created = DateTimeFormat::from_marker(doc.created_at_format.as_str());
        proof {
            crate::datetime::lemma_format_view_agrees(created, doc.created_at);
        }
        jd.created_at = Some(created.format(&doc.created_at));
        let updated = DateTimeFormat::from_marker(doc.updated_at_format.as_str());
        proof {
            crate::datetime::lemma_format_view_agrees(updated, doc.updated_at);
        }
        jd.updated_at = Some(updated.format(&doc.updated_at));
        Ok(jd)
    }
}

/// The JSON projection of a document (the historical spelling is kept):
/// uuid, slug, title, description, category, language, tags as an array,
/// body, and both dates in their written notation.
#[derive(Debug)]
pub struct JSONDcument {
    pub uuid: Option<String>,
    pub slug: Option<String>,
    pub title: Option<String>,
    pub description: Option<String>,
    pub category: Option<String>,
    pub lang: Option<String>,
    pub tags: Option<Vec<String>>,
    pub body: Option<String>,
    pub updated_at: Option<String>,
    pub created_at: Option<String>,
}

/// Whether `j` is exactly the projection of `doc`.
pub open spec fn spec_json_of(doc: IndexDoc, j: JSONDcument) -> bool {
    &&& opt_str_view(j.uuid) == Some(doc.uuid@)
    &&& opt_str_view(j.slug) == Some(doc.slug@)
    &&& opt_str_view(j.title) == Some(doc.title@)
    &&& opt_str_view(j.description) == Some(doc.description@)
    &&& opt_str_view(j.category) == Some(doc.category@)
    &&& opt_str_view(j.lang) == Some(doc.lang@)
    &&& match j.tags {
        Some(ts) => strs_view(ts@) == spec_split_tags(doc.tags@),
        None => false,
    }
    &&& opt_str_view(j.body) == Some(doc.body@)
    &&& match j.created_at {
        Some(c) => c@ == spec_format_view(
            crate::datetime::spec_notation_of_marker(doc.created_at_format@),
            doc.created_at,
        ),
        None => false,
    }
    &&& match j.updated_at {
        Some(u) => u@ == spec_format_view(
            crate::datetime::spec_notation_of_marker(doc.updated_at_format@),
            doc.updated_at,
        ),
        None => false,
    }
}

impl JSONDcument {
    /// An empty projection: every field absent.
    pub fn new() -> (r: Self)
        ensures
            r.uuid is None && r.slug is None && r.title is None && r.description is None
                && r.category is None && r.lang is None && r.tags is None && r.body is None
                && r.created_at is None && r.updated_at is None,
    {
        Self {
            uuid: None,
            slug: None,
            title: None,
            description: None,
            category: None,
            lang: None,
            tags: None,
            body: None,
            created_at: None,
            updated_at: None,
        }
    }

    /// Fills the projection field for one logical field from a document;
    /// the index-only field and the two notation markers fill nothing.
    pub fn set(&mut self, doc: &IndexDoc, field: PostField) -> (r: Result<(), SchemaError>)
        requires
            doc.wf(),
        ensures
            r is Ok,
            field == PostField::Uuid ==> opt_str_view(final(self).uuid) == Some(doc.uuid@),
            field == PostField::Slug ==> opt_str_view(final(self).slug) == Some(doc.slug@),
            field == PostField::Title ==> opt_str_view(final(self).title) == Some(doc.title@),
            field == PostField::Description ==> opt_str_view(final(self).description) == Some(
                doc.description@,
            ),
            field == PostField::Category ==> opt_str_view(final(self).category) == Some(
                doc.category@,
            ),
            field == PostField::Lang ==> opt_str_view(final(self).lang) == Some(doc.lang@),
            field == PostField::Body ==> opt_str_view(final(self).body) == Some(doc.body@),
            field == PostField::Tags ==> match final(self).tags {
                Some(ts) => strs_view(ts@) == spec_split_tags(doc.tags@),
                None => false,
            },
            field == PostField::CreatedAt ==> match final(self).created_at {
                Some(c) => c@ == spec_format_view(
                    crate::datetime::spec_notation_of_marker(doc.created_at_format@),
                    doc.created_at,
                ),
                None => false,
            },
            field == PostField::UpdatedAt ==> match final(self).updated_at {
                Some(u) => u@ == spec_format_view(
                    crate::datetime::spec_notation_of_marker(doc.updated_at_format@),
                    doc.updated_at,
                ),
                None => false,
            },
            (field == PostField::RawText || field == PostField::CreatedAtFormat || field
                == PostField::UpdatedAtFormat) ==> *final(self) == *old(self),
            field != PostField::Uuid ==> final(self).uuid == old(self).uuid,
            field != PostField::Slug ==> final(self).slug == old(self).slug,
            field != PostField::Title ==> final(self).title == old(self).title,
            field != PostField::Description ==> final(self).description == old(self).description,
            field != PostField::Category ==> final(self).category == old(self).category,
            field != PostField::Lang ==> final(self).lang == old(self).lang,
            field != PostField::Body ==> final(self).body == old(self).body,
            field != PostField::Tags ==> final(self).tags == old(self).tags,
            field != PostField::CreatedAt ==> final(self).created_at == old(self).created_at,
            field != PostField::UpdatedAt ==> final(self).updated_at == old(self).updated_at,
    {
        match field {
            PostField::Uuid => {
                self.uuid = Some(doc.uuid.clone());
            },
            PostField::Slug => {
                self.slug = Some(doc.slug.clone());
            },
            PostField::Title => {
                self.title = Some(doc.title.clone());
            },
            PostField::Description => {
                self.description = Some(doc.description.clone());
            },
            PostField::Category => {
                self.category = Some(doc.category.clone());
            },
            PostField::Lang => {
                self.lang = Some(doc.lang.clone());
            },
            PostField::Body => {
                self.body = Some(doc.body.clone());
            },
            PostField::Tags => {
                self.tags = Some(split_tags(&doc.tags));
            },
            PostField::CreatedAt => {
                let dfmt = DateTimeFormat::from_marker(doc.created_at_format.as_str());
                proof {
                    crate::datetime::lemma_format_view_agrees(dfmt, doc.created_at);
                }
                self.created_at = Some(dfmt.format(&doc.created_at));
            },
            PostField::UpdatedAt => {
                let dfmt = DateTimeFormat::from_marker(doc.updated_at_format.as_str());
                proof {
                    crate::datetime::lemma_format_view_agrees(dfmt, doc.updated_at);
                }
                self.updated_at = Some(dfmt.format(&doc.updated_at));
            },
            _ => {},
        }
        Ok(())
    }
}

} // verus!
