use smark::datetime::UtcDateTime;
use smark::schema::{build_schema, FieldGetter, IndexDoc, PostField};

fn all_fields() -> Vec<PostField> {
    vec![
        PostField::Uuid,
        PostField::Slug,
        PostField::Title,
        PostField::Description,
        PostField::Lang,
        PostField::Category,
        PostField::Tags,
        PostField::Body,
        PostField::RawText,
        PostField::CreatedAt,
        PostField::UpdatedAt,
        PostField::CreatedAtFormat,
        PostField::UpdatedAtFormat,
    ]
}

fn sample_doc() -> IndexDoc {
    let datetime = UtcDateTime {
        year: 2022,
        month: 1,
        day: 11,
        hour: 19,
        minute: 8,
        second: 9,
    };
    IndexDoc {
        uuid: "u-1".to_string(),
        slug: "slug".to_string(),
        title: "title".to_string(),
        description: "description".to_string(),
        lang: "ja".to_string(),
        category: "category".to_string(),
        tags: "a b".to_string(),
        body: "body".to_string(),
        raw_text: Some("body".to_string()),
        created_at: datetime,
        updated_at: datetime,
        created_at_format: "RFC3329".to_string(),
        updated_at_format: "RFC3329".to_string(),
    }
}

#[test]
fn test_get_field() {
    let schema = build_schema();
    let fg = FieldGetter::new(&schema);

    for pf in all_fields() {
        let entry = fg.get_field(pf);
        assert_eq!(entry.field, pf);
    }
}

#[test]
fn test_postfields_beloging_some_fields_getter() {
    assert_eq!(
        all_fields().len(),
        PostField::text_fields().len()
            + PostField::date_fields().len()
            + PostField::not_stored_fileds().len()
    )
}

#[test]
fn test_get_text_and_date() {
    let schema = build_schema();
    let fg = FieldGetter::new(&schema);
    let doc = sample_doc();

    for pf in PostField::text_fields() {
        assert!(fg.get_text(&doc, pf).is_ok());
    }
    for pf in PostField::date_fields() {
        assert!(fg.get_date(&doc, pf).is_ok());
    }
    assert!(fg.get_text(&doc, PostField::RawText).is_err());
    assert!(fg.get_text(&doc, PostField::CreatedAt).is_err());
    assert!(fg.get_date(&doc, PostField::Title).is_err());
}

#[test]
fn test_get_tags_splits_and_drops_empties() {
    let schema = build_schema();
    let fg = FieldGetter::new(&schema);
    let mut doc = sample_doc();
    doc.tags = "  a  b ".to_string();
    assert_eq!(fg.get_tags(&doc).unwrap(), vec!["a".to_string(), "b".to_string()]);
}

#[test]
fn test_get_date_as_str_recombines_notation() {
    let schema = build_schema();
    let fg = FieldGetter::new(&schema);
    let mut doc = sample_doc();
    doc.created_at_format = "%Y/%m/%d %H:%M:%S".to_string();
    assert_eq!(
        fg.get_date_as_str(&doc, PostField::CreatedAt).unwrap(),
        "2022/01/11 19:08:09"
    );
    assert_eq!(
        fg.get_date_as_str(&doc, PostField::UpdatedAt).unwrap(),
        "2022-01-11T19:08:09+00:00"
    );
}

#[test]
fn test_to_json_projects_without_raw_text() {
    let schema = build_schema();
    let fg = FieldGetter::new(&schema);
    let doc = sample_doc();
    let j = fg.to_json(&doc).unwrap();
    assert_eq!(j.uuid.unwrap(), "u-1");
    assert_eq!(j.slug.unwrap(), "slug");
    assert_eq!(j.tags.unwrap(), vec!["a".to_string(), "b".to_string()]);
    assert_eq!(j.created_at.unwrap(), "2022-01-11T19:08:09+00:00");
}
