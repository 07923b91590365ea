use smark::datetime::{DateTimeFormat, DateTimeWithFormat, UtcDateTime};
use smark::post::{path_to_slug, Post};
use smark::dump::dump_matter;
use smark::frontmatter::{find_frontmatter_block, split_frontmatter_and_content, FrontMatter};
use smark::lang::Lang;

#[test]
fn test_detect_frontmatter() {
    let test_string = "---\ntitle: Valid Yaml Test\ndescription: Valid Yaml Description\n---\nsomething that's not yaml";
    assert_eq!(find_frontmatter_block(test_string), Some((0, 67)));
}

#[test]
fn frontmatter_test_detect_frontmatter() {
    let test_string = "---\ntitle: Valid Yaml Test\ndescription: Valid Yaml Description\n---\nsomething that's not yaml";
    assert_eq!(find_frontmatter_block(test_string), Some((0, 67)));
}

#[test]
fn matter_test_detect_frontmatter() {
    let test_string = "---\ntitle: Valid Yaml Test\ndescription: Valid Yaml Description\n---\nsomething that's not yaml";
    assert_eq!(find_frontmatter_block(test_string), Some((0, 67)));
}

#[test]
fn test_frontmatter() {
    let test_string = "---\nuuid: uuid\ntitle: Valid Yaml Test\ndescription: Valid Yaml Description\ncategory: Valid Yaml category\n---\nsomething that's not yaml";

    let (frontmatter, content) = split_frontmatter_and_content(test_string).unwrap();
    let expect_frontmatter = FrontMatter::new(
        "uuid".to_string(),
        "Valid Yaml Test".to_string(),
        "Valid Yaml Description".to_string(),
        "Valid Yaml category".to_string(),
        Lang::Ja,
        None,
        None,
        None,
    );
    assert_eq!(frontmatter.unwrap(), expect_frontmatter);
    assert_eq!(content, "something that's not yaml")
}

#[test]
fn test_frontmatter_tags() {
    let test_string_tags = "---\nuuid: uuid\n\ntitle: Valid Yaml Test\ndescription: Valid Yaml Description\ncategory: Valid Yaml category\ntags:\n- '1'\n- '2'\n---\nsomething that's not yaml";
    let test_int_tags = "---\nuuid: uuid\n\ntitle: Valid Yaml Test\ndescription: Valid Yaml Description\ncategory: Valid Yaml category\ntags:\n- 1\n- 2\n---\nsomething that's not yaml";
    let (string_frontmatter, _) = split_frontmatter_and_content(test_string_tags).unwrap();
    let (int_frontmatter, _) = split_frontmatter_and_content(test_int_tags).unwrap();
    assert_eq!(
        string_frontmatter.expect("error in string"),
        int_frontmatter.expect("error in int")
    );
}

#[test]
fn test_frontmatter_to_yaml() {
    let test_string_tags = "---
category: Test
uuid: fabe88b5-a35e-4954-bfd8-b5e88c585e7a
title: Test Markdown
description: Test
lang: ja
created_at: \"2022-01-09T18:10:39+00:00\"
updated_at: \"2022-01-09T18:10:39+00:00\"
tags:
  - \"1\"
  - \"2\"
---

## TEST
";
    let (frontmatter, _) = split_frontmatter_and_content(test_string_tags).unwrap();
    let out_str = dump_matter(&frontmatter.clone().unwrap());
    let (out_frontmatter, _) = split_frontmatter_and_content(&out_str).unwrap();
    assert_eq!(frontmatter.unwrap(), out_frontmatter.unwrap());
}

#[test]
fn test_equal_from_post() {
    let test_with_date = "---
category: Test
uuid: fabe88b5-a35e-4954-bfd8-b5e88c585e7a
title: Test Markdown
description: Test
lang: ja
created_at: \"2022-01-09T18:10:39+00:00\"
updated_at: \"2022-01-09T18:10:39+00:00\"
tags:
    - \"1\"
    - \"2\"
---
";

    let test_no_date = "---
category: Test
uuid: fabe88b5-a35e-4954-bfd8-b5e88c585e7a
title: Test Markdown
description: Test
lang: ja
tags:
    - \"1\"
    - \"2\"
---
";
    let (frontmatter_with_date, _) = split_frontmatter_and_content(test_with_date).unwrap();
    let (frontmatter_no_date, _) = split_frontmatter_and_content(test_no_date).unwrap();
    let frontmatter_with_date = frontmatter_with_date.unwrap();
    let frontmatter_no_date = frontmatter_no_date.unwrap();
    assert!(frontmatter_no_date.equal_matter_from_doc(&frontmatter_no_date));
    assert!(frontmatter_with_date.equal_matter_from_doc(&frontmatter_with_date));
    assert!(frontmatter_no_date.equal_matter_from_doc(&frontmatter_with_date));

    let updated_title = FrontMatter::new(
        frontmatter_with_date.uuid(),
        "New Test Title".to_string(),
        frontmatter_with_date.description(),
        frontmatter_with_date.category(),
        frontmatter_with_date.lang(),
        frontmatter_with_date.tags(),
        frontmatter_with_date.created_at(),
        frontmatter_with_date.updated_at(),
    );
    assert!(!frontmatter_with_date.equal_matter_from_doc(&updated_title));

    let new_updated_at = DateTimeWithFormat::new(
        UtcDateTime {
            year: 2024,
            month: 6,
            day: 1,
            hour: 12,
            minute: 0,
            second: 0,
        },
        DateTimeFormat::RFC3339,
    );
    let updated_stamp = FrontMatter::new(
        frontmatter_with_date.uuid(),
        frontmatter_with_date.title(),
        frontmatter_with_date.description(),
        frontmatter_with_date.category(),
        frontmatter_with_date.lang(),
        frontmatter_with_date.tags(),
        frontmatter_with_date.created_at(),
        Some(new_updated_at),
    );
    assert!(frontmatter_with_date.equal_matter_from_doc(&updated_stamp));
}

#[test]
fn test_dump_matter() {
    let now = DateTimeWithFormat::new(
        UtcDateTime {
            year: 2022,
            month: 1,
            day: 9,
            hour: 18,
            minute: 10,
            second: 39,
        },
        DateTimeFormat::RFC3339,
    );
    let matter = FrontMatter::new(
        "uuid".to_string(),
        "title".to_string(),
        "description".to_string(),
        "category".to_string(),
        Lang::En,
        None,
        Some(now.clone()),
        Some(now.clone()),
    );

    let out = dump_matter(&matter);
    let expected = format!("---\nuuid: uuid\ntitle: title\ndescription: description\nlang: en\ncategory: category\ncreated_at: \"{}\"\nupdated_at: \"{}\"\n---\n", now.to_string(), now.to_string());

    assert_eq!(out, expected);
}

#[test]
fn test_missing_field_errors() {
    let no_uuid = "---\ntitle: t\ndescription: d\ncategory: c\n---\n";
    assert!(split_frontmatter_and_content(no_uuid).is_err());
    let no_title = "---\nuuid: u\ndescription: d\ncategory: c\n---\n";
    assert!(split_frontmatter_and_content(no_title).is_err());
}

#[test]
fn test_invalid_lang_error() {
    let bad = "---\nuuid: u\ntitle: t\ndescription: d\ncategory: c\nlang: fr\n---\n";
    assert!(split_frontmatter_and_content(bad).is_err());
}

#[test]
fn test_invalid_date_error() {
    let bad = "---\nuuid: u\ntitle: t\ndescription: d\ncategory: c\ncreated_at: sometime\n---\n";
    assert!(split_frontmatter_and_content(bad).is_err());
}

#[test]
fn test_invalid_tag_error() {
    let bad = "---\nuuid: u\ntitle: t\ndescription: d\ncategory: c\ntags:\n- [a, b]\n---\n";
    assert!(split_frontmatter_and_content(bad).is_err());
}

#[test]
fn test_malformed_line_error() {
    let bad = "---\nuuid: u\ntitle t without a colon\n---\n";
    assert!(split_frontmatter_and_content(bad).is_err());
}

#[test]
fn test_post_from_text_and_slug() {
    assert_eq!(path_to_slug("post.md"), "post");
    assert_eq!(path_to_slug("archive.tar.gz"), "archive.tar");
    assert_eq!(path_to_slug("noext"), "noext");
    assert_eq!(path_to_slug(".."), "..");
    assert_eq!(path_to_slug(".gitignore"), ".gitignore");

    let text = "---\nuuid: u\ntitle: t\ndescription: d\ncategory: c\n---\nbody line\n";
    let post = Post::from_text("post.md", text).unwrap();
    assert_eq!(post.slug(), "post");
    assert_eq!(post.body(), "body line\n");
    assert_eq!(post.raw_text().unwrap(), "body line");

    assert!(Post::from_text("post.md", "no front matter").is_err());
}

#[test]
fn test_replace_frontmatter_overrides() {
    let base = "---\nuuid: u\ntitle: t\ndescription: d\ncategory: c\n---\n";
    let replaced = smark::frontmatter::replace_frontmatter(
        base,
        &None,
        &Some("new title".to_string()),
        &None,
        &None,
        &None,
        &None,
        &None,
        &None,
    )
    .unwrap();
    assert_eq!(replaced.title(), "new title");
    assert_eq!(replaced.uuid(), "u");
    assert_eq!(replaced.lang(), Lang::Ja);

    let fresh = smark::frontmatter::replace_frontmatter(
        "",
        &None,
        &None,
        &None,
        &None,
        &None,
        &None,
        &None,
        &None,
    )
    .unwrap();
    assert_eq!(fresh.uuid().chars().count(), 36);
    assert_eq!(fresh.title(), "");
}
