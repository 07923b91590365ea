//! A personal knowledge-base engine: Markdown posts with YAML front matter
//! are turned into index documents, kept consistent by an idempotent
//! upsert, and queried by exact filters, free-text search and facet
//! listing.
//!
//! - [`lang`] — the closed set of post languages.
//! - [`datetime`] — instants and the notations they were written in, with
//!   the round-trip laws.
//! - [`frontmatter`] — the typed front-matter record and its grammar.
//! - [`extract`] — comment stripping and plain-text extraction.
//! - [`post`] — the post entity and its mapping to index documents.
//! - [`schema`] — the field catalog and typed document access.
//! - [`query`] — the upsert engine and the query layer, with the
//!   idempotence and identity-uniqueness laws.
//! - [`dump`] — serializing records and posts back to file text.
//! - [`route`] — the request shapes and the pure core of each route.
//! - [`chars`] — crossing between strings and character vectors.

pub mod chars;
pub mod datetime;
pub mod dump;
pub mod extract;
pub mod frontmatter;
pub mod lang;
pub mod post;
pub mod query;
pub mod route;
pub mod schema;

pub use frontmatter::FrontMatter;
pub use lang::Lang;
pub use post::Post;
pub use query::PostIndex;
