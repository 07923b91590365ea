use smark::extract::{extract_inner_text, extract_text};

#[test]
fn test_extract_text() {
    let markdown_text = r#"
## TEST

これはテストです。

- リスト1
- リスト2

[self](test_post.md)

```rust
fn main() {
    println!("Hello World")
}
```

<summary>

<details>RUN</details>

Some Codes

</summary>
        "#;

    let text = extract_text(&markdown_text);
    let expected = "TEST\nこれはテストです。\nリスト1\nリスト2\nself\nfn main() {\n    println!(\"Hello World\")\n}\n\nRUN\nSome Codes";
    assert_eq!(&text, expected);
}

#[test]
fn test_extract_inner_text() {
    let text = r#"
<summary>
<detail>detail</detail>
summary
</summary>
        "#;
    let text: Vec<String> = text.split("\n").map(|s| s.to_string()).collect();
    let extracted = extract_inner_text(&text);
    assert_eq!(extracted.join("\n"), "detail\nsummary");
}

#[test]
fn text_only_html() {
    let text = r#"
<summary>
<detail>detail</detail>
summary
</summary>
        "#;

    let extracted = extract_text(&text);
    assert_eq!(extracted, "detail\nsummary");
}

#[test]
fn test_ignore_comment() {
    let markdown_text = r#"
<!-- comments -->

<!--
multi line
comments
-->

<div><p>inner</p></div>

## TEST
"#;
    let text = extract_text(markdown_text);
    let expected = "inner\nTEST";
    assert_eq!(text, expected);
}
