use smark::extract::remove_comments;

#[test]
fn test_empty() {
    let text = "";
    let result = remove_comments(text);
    assert_eq!(text.to_string(), result)
}

#[test]
fn test_no_comment() {
    let text = r#"
# TEST

- AAA
- BBB"#;
    let result = remove_comments(text);
    assert_eq!(text, result.as_str());
}

#[test]
fn test_oneline_comment() {
    let text = "<!-- comment -->";
    let result = remove_comments(text);
    assert!(result.is_empty());
}

#[test]
fn test_multiline_comment() {
    let text = r#"
<!--
multiline
comment
-->
        "#;
    let result = remove_comments(text);
    assert!(result.trim().is_empty());
}

#[test]
fn test_inline_comment() {
    let text = "in<!-- comment -->line";
    let result = remove_comments(text);
    assert_eq!(result.as_str(), "inline");
}

#[test]
fn test_mix() {
    let text = "# TEST\n<!-- comment -->\n\n<!-- \nmultiline\ncomment\n-->\n\nTEST\n";
    let result = remove_comments(text);
    let expected = "# TEST\nTEST\n";
    assert_eq!(result, expected);
}
