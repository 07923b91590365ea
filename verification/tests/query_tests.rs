use smark::datetime::{DateTimeFormat, DateTimeWithFormat, OrderBy, UtcDateTime};
use smark::frontmatter::FrontMatter;
use smark::lang::Lang;
use smark::post::Post;
use smark::query::{
    get_all, get_by_slug_with_lang, get_by_uuid, get_tags_and_categories, put, search,
    PostIndex, UpsertResult,
};
use smark::schema::PostField;

fn fixed_now() -> UtcDateTime {
    UtcDateTime {
        year: 2022,
        month: 1,
        day: 11,
        hour: 19,
        minute: 8,
        second: 9,
    }
}

fn later_now() -> UtcDateTime {
    UtcDateTime {
        year: 2022,
        month: 2,
        day: 2,
        hour: 3,
        minute: 4,
        second: 5,
    }
}

fn make_post(i: usize, lang: Lang, category: &str, tags: Option<Vec<String>>) -> Post {
    let stamp = DateTimeWithFormat::new(fixed_now(), DateTimeFormat::RFC3339);
    let matter = FrontMatter::new(
        uuid::Uuid::new_v4().to_string(),
        format!("title{}", i),
        format!("description{}", i),
        category.to_string(),
        lang,
        tags,
        Some(stamp.clone()),
        Some(stamp),
    );
    Post::new(format!("slug{}", i), matter, format!("body text {}", i))
}

fn build_posts_index(n: usize) -> (Vec<Post>, PostIndex) {
    let mut index = PostIndex::new();
    let mut posts = Vec::new();
    for i in 0..n {
        let lang = if i % 2 == 0 { Lang::Ja } else { Lang::En };
        let category = if i % 3 == 0 { "cat-a" } else { "cat-b" };
        let tags = if i % 2 == 0 {
            Some(vec![format!("tag{}", i), "shared".to_string()])
        } else {
            None
        };
        let post = make_post(i, lang, category, tags);
        let r = put(&post, &mut index, false, &fixed_now());
        assert!(matches!(r, UpsertResult::Inserted(_)));
        posts.push(post);
    }
    (posts, index)
}

#[test]
fn test_put() {
    let mut index = PostIndex::new();
    let post = make_post(0, Lang::Ja, "c", Some(vec!["t".to_string()]));
    let r = put(&post, &mut index, false, &fixed_now());
    let doc = match r {
        UpsertResult::Inserted(d) => d,
        _ => panic!("first put must insert"),
    };
    let post_doc = Post::from_doc(&doc).unwrap();
    assert!(post.equal_from_doc(&post_doc));

    let again = put(&post_doc, &mut index, false, &later_now());
    assert!(matches!(again, UpsertResult::Skipped));
    assert_eq!(index.len(), 1);
}

#[test]
fn test_put_idempotent_same_post() {
    let mut index = PostIndex::new();
    let post = make_post(1, Lang::En, "c", None);
    let first = put(&post, &mut index, false, &fixed_now());
    assert!(matches!(first, UpsertResult::Inserted(_)));
    let second = put(&post, &mut index, false, &later_now());
    assert!(matches!(second, UpsertResult::Skipped));
    assert_eq!(index.len(), 1);
}

#[test]
fn test_put_skips_when_only_created_at_differs() {
    let mut index = PostIndex::new();
    let post = make_post(2, Lang::Ja, "c", None);
    let first = put(&post, &mut index, false, &fixed_now());
    assert!(matches!(first, UpsertResult::Inserted(_)));

    let other_stamp = DateTimeWithFormat::new(later_now(), DateTimeFormat::RFC3339);
    let same_but_created = Post::new(
        post.slug(),
        FrontMatter::new(
            post.uuid(),
            post.title(),
            post.matter().description(),
            post.category(),
            post.lang(),
            post.tags(),
            Some(other_stamp),
            post.updated_at(),
        ),
        post.body(),
    );
    let second = put(&same_but_created, &mut index, false, &later_now());
    assert!(matches!(second, UpsertResult::Skipped));
    assert_eq!(index.len(), 1);
}

#[test]
fn test_put_with_format() {
    let now = fixed_now();
    let matter = FrontMatter::new(
        uuid::Uuid::new_v4().to_string(),
        "title".to_string(),
        "description".to_string(),
        "category".to_string(),
        Lang::Ja,
        None,
        Some(DateTimeWithFormat::new(
            now,
            DateTimeFormat::Custom("YY/MM/DD".to_string()),
        )),
        Some(DateTimeWithFormat::new(
            now,
            DateTimeFormat::Custom("YY-MM-DD".to_string()),
        )),
    );
    let mut post = Post::new("slugf".to_string(), matter, "first body".to_string());
    let mut index = PostIndex::new();

    let r1 = put(&post, &mut index, false, &fixed_now());
    let prev_doc = match r1 {
        UpsertResult::Inserted(d) => d,
        _ => panic!("expected insert"),
    };
    let prev_post = Post::from_doc(&prev_doc).unwrap();

    post.set_body("second body".to_string());

    let r2 = put(&post, &mut index, false, &later_now());
    let new_doc = match r2 {
        UpsertResult::Updated(d) => d,
        _ => panic!("expected update"),
    };
    let updated_post = Post::from_doc(&new_doc).unwrap();

    assert_ne!(prev_post.updated_at(), updated_post.updated_at());
    assert_eq!(
        prev_post.updated_at().unwrap().format(),
        updated_post.updated_at().unwrap().format()
    );
}

#[test]
fn test_notation_preserved_across_update() {
    let now = fixed_now();
    let matter = FrontMatter::new(
        uuid::Uuid::new_v4().to_string(),
        "title".to_string(),
        "description".to_string(),
        "category".to_string(),
        Lang::Ja,
        None,
        None,
        Some(DateTimeWithFormat::new(
            now,
            DateTimeFormat::Custom("%Y/%m/%d %H:%M:%S".to_string()),
        )),
    );
    let mut post = Post::new("slugn".to_string(), matter, "v1".to_string());
    let mut index = PostIndex::new();
    put(&post, &mut index, false, &fixed_now());

    post.set_body("v2".to_string());
    let r = put(&post, &mut index, false, &later_now());
    let doc = match r {
        UpsertResult::Updated(d) => d,
        _ => panic!("expected update"),
    };
    assert_eq!(doc.updated_at_format, "%Y/%m/%d %H:%M:%S");
    assert_eq!(doc.updated_at, later_now());
    let fmt = DateTimeFormat::from_marker(&doc.updated_at_format);
    assert_eq!(fmt.format(&doc.updated_at), "2022/02/02 03:04:05");
}

#[test]
fn test_get_all() {
    let (posts, index) = build_posts_index(10);
    assert_eq!(posts.len(), 10);

    let docs = get_all(&index, &vec![], None);
    assert!(docs.is_some());
    assert_eq!(docs.unwrap().len(), 10);
}

#[test]
fn test_get_all_filters_language() {
    let (posts, index) = build_posts_index(10);
    let en_count = posts.iter().filter(|p| p.lang() == Lang::En).count();
    let docs = get_all(
        &index,
        &vec![(PostField::Lang, "en".to_string())],
        None,
    )
    .unwrap();
    assert_eq!(docs.len(), en_count);
    for d in docs.iter() {
        assert_eq!(d.lang, "en");
    }

    let none = get_all(
        &index,
        &vec![(PostField::Category, "no-such-category".to_string())],
        None,
    );
    assert!(none.is_none());
}

#[test]
fn test_get_all_ordered_desc() {
    let mut index = PostIndex::new();
    for i in 0..5 {
        let matter = FrontMatter::new(
            uuid::Uuid::new_v4().to_string(),
            format!("title{}", i),
            "d".to_string(),
            "c".to_string(),
            Lang::Ja,
            None,
            Some(DateTimeWithFormat::new(
                UtcDateTime {
                    year: 2020,
                    month: 1,
                    day: 1 + i as u8,
                    hour: 0,
                    minute: 0,
                    second: 0,
                },
                DateTimeFormat::RFC3339,
            )),
            None,
        );
        let post = Post::new(format!("s{}", i), matter, "b".to_string());
        put(&post, &mut index, false, &fixed_now());
    }
    let docs = get_all(&index, &vec![], Some(OrderBy::CreatedAt)).unwrap();
    for w in docs.windows(2) {
        assert!(w[1].created_at.le(&w[0].created_at));
    }
}

#[test]
fn test_get_by_uuid() {
    let (posts, index) = build_posts_index(5);

    for post in posts.iter() {
        let uuid = post.uuid();
        let doc = get_by_uuid(&uuid, &index).unwrap();
        let res_post = Post::from_doc(&doc).unwrap();
        assert_eq!(res_post.uuid(), uuid);
        assert!(res_post.equal_from_doc(&post));
    }
    assert!(get_by_uuid("missing", &index).is_err());
}

#[test]
fn test_get_by_slug_and_lang() {
    let (posts, index) = build_posts_index(5);

    for post in posts.iter() {
        let slug = post.slug();
        let lang = post.lang();

        let doc = get_by_slug_with_lang(&slug, lang.as_str(), &index).unwrap();
        let res_post = Post::from_doc(&doc).unwrap();

        assert!(post.equal_from_doc(&res_post));
    }
}

#[test]
fn test_get_tags_and_categories() {
    let (posts, index) = build_posts_index(10);

    let (mut tags, mut categories) = get_tags_and_categories(&index);

    let mut rand_tags: Vec<String> = Vec::new();
    let mut rand_categories: Vec<String> = Vec::new();

    for post in posts.iter() {
        if !rand_categories.contains(&post.category()) {
            rand_categories.push(post.category());
        }
        if let Some(post_tags) = post.tags() {
            for tag in post_tags.iter() {
                if !rand_tags.contains(tag) {
                    rand_tags.push(tag.to_owned());
                }
            }
        }
    }

    tags.sort_unstable();
    categories.sort_unstable();
    rand_tags.sort_unstable();
    rand_categories.sort_unstable();

    assert_eq!(tags, rand_tags);
    assert_eq!(categories, rand_categories);
}

#[test]
fn test_search_limit() {
    let (_, index) = build_posts_index(7);
    let fields = vec![PostField::Title, PostField::Description, PostField::RawText];

    let none = search("title", &fields, 0, &index);
    assert!(none.is_empty());

    let some = search("title", &fields, 3, &index);
    assert_eq!(some.len(), 3);

    let all = search("title", &fields, 100, &index);
    assert_eq!(all.len(), 7);

    let miss = search("zz-no-such-text", &fields, 10, &index);
    assert!(miss.is_empty());
}

#[test]
fn test_search_is_case_folded() {
    let (_, index) = build_posts_index(3);
    let fields = vec![PostField::Title];
    let hits = search("TITLE", &fields, 10, &index);
    assert_eq!(hits.len(), 3);
    let hits = search("Title0", &fields, 10, &index);
    assert_eq!(hits.len(), 1);
}

#[test]
fn test_search_reaches_body_text() {
    let (mut posts, mut index) = build_posts_index(3);
    posts[0].set_body("findme inside the body".to_string());
    let r = put(&posts[0], &mut index, false, &later_now());
    assert!(matches!(r, UpsertResult::Updated(_)));

    let fields = vec![PostField::RawText];
    let hits = search("findme", &fields, 10, &index);
    assert_eq!(hits.len(), 1);
    assert_eq!(hits[0].uuid, posts[0].uuid());
}

#[test]
fn test_scenario_five_posts() {
    let mut index = PostIndex::new();
    let mut posts: Vec<Post> = Vec::new();
    for i in 0..5 {
        let lang = if i < 2 { Lang::En } else { Lang::Ja };
        let category = if i % 2 == 0 { "notes" } else { "letters" };
        let tags = if i % 2 == 0 {
            Some(vec![format!("t{}", i)])
        } else {
            None
        };
        let post = make_post(i, lang, category, tags);
        let r = put(&post, &mut index, false, &fixed_now());
        assert!(matches!(r, UpsertResult::Inserted(_)));
        posts.push(post);
    }

    let (mut tags, mut categories) = get_tags_and_categories(&index);
    tags.sort_unstable();
    categories.sort_unstable();
    let mut want_tags: Vec<String> = Vec::new();
    let mut want_categories: Vec<String> = Vec::new();
    for p in posts.iter() {
        if let Some(ts) = p.tags() {
            for t in ts {
                if !want_tags.contains(&t) {
                    want_tags.push(t);
                }
            }
        }
        if !want_categories.contains(&p.category()) {
            want_categories.push(p.category());
        }
    }
    want_tags.sort_unstable();
    want_categories.sort_unstable();
    assert_eq!(tags, want_tags);
    assert_eq!(categories, want_categories);

    let en = get_all(&index, &vec![(PostField::Lang, "en".to_string())], None).unwrap();
    let want_en = posts.iter().filter(|p| p.lang() == Lang::En).count();
    assert_eq!(en.len(), want_en);

    let schema = smark::schema::build_schema();
    let fg = smark::schema::FieldGetter::new(&schema);
    for p in posts.iter() {
        let doc = get_by_uuid(&p.uuid(), &index).unwrap();
        let j = fg.to_json(&doc).unwrap();
        assert_eq!(j.uuid.unwrap(), p.uuid());
        assert_eq!(j.slug.unwrap(), p.slug());
        assert_eq!(j.title.unwrap(), p.title());
        assert_eq!(j.description.unwrap(), p.matter().description());
        assert_eq!(j.category.unwrap(), p.category());
        assert_eq!(j.lang.unwrap(), p.lang().as_str());
        assert_eq!(j.body.unwrap(), p.body());
        let want_tags = p.tags().unwrap_or_default();
        assert_eq!(j.tags.unwrap(), want_tags);
    }
}

#[test]
fn test_prep_post_index_keeps_normalized_file() {
    let (mut posts, mut index) = build_posts_index(2);
    let first = put(&posts[0], &mut index, true, &fixed_now());
    assert!(matches!(first, UpsertResult::Skipped));

    posts[0].set_body("<!-- comment --> abc".to_string());
    let new_markdown =
        smark::dump::prep_post_index(&mut posts[0], &mut index, false, &later_now()).unwrap();
    assert!(new_markdown.contains("<!-- comment --> abc"));

    let again = smark::dump::prep_post_index(&mut posts[0], &mut index, true, &later_now());
    assert!(again.is_none());
}
