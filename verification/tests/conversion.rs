use markdown_parser::convert_inline_markdown;
use markdown_parser::tokenize_line;
use markdown_parser::tokenize_text;
use markdown_parser::Token;

#[test]
fn test_transform_mixed_spans() {
    let mut line = String::from("This is **bold**, *italic*, and [a link](https://example.com).");
    let html = convert_inline_markdown(&mut line);
    assert_eq!(
        html,
        "This is <strong>bold</strong>, <i>italic</i>, and <a href=\"https://example.com\">a link</a>."
    );
}

#[test]
fn test_transform_leaves_input_line_intact() {
    let mut line = String::from("keep **me** around");
    let html = convert_inline_markdown(&mut line);
    assert_eq!(html, "keep <strong>me</strong> around");
    assert_eq!(line, "keep **me** around");
}

#[test]
fn test_inline_code_excess_closing_backticks() {
    let mut line = String::from("a `x`` b");
    let html = convert_inline_markdown(&mut line);
    assert_eq!(html, "a <code>x`</code> b");
}

#[test]
fn test_inline_code_excess_opening_backticks() {
    let mut line = String::from("a ``x` b");
    let html = convert_inline_markdown(&mut line);
    assert_eq!(html, "a <code>`x</code> b");
}

#[test]
fn test_bold_markers_only() {
    let mut line = String::from("a **** b");
    let html = convert_inline_markdown(&mut line);
    assert_eq!(html, "a <i>*</i>* b");
}

#[test]
fn test_nested_link_text() {
    let mut line = String::from("See [outer [inner] text](https://example.com) now.");
    let html = convert_inline_markdown(&mut line);
    assert_eq!(
        html,
        "See <a href=\"https://example.com\">outer [inner] text</a> now."
    );
}

#[test]
fn test_quote_of_paragraph() {
    let token = tokenize_line(String::from("> quoted text")).unwrap();
    match token {
        Token::Quote { text, nested_token } => {
            assert_eq!(text, "quoted text");
            assert!(matches!(*nested_token, Token::Empty {}));
        }
        _ => panic!("Expected Quote token"),
    }
}

#[test]
fn test_quote_of_header_renders_nested() {
    let result = tokenize_text(vec![String::from("> # Title")]);
    assert_eq!(result, vec!["<q>[DEBUG]<h1>Title</h1></q>"]);
}

#[test]
fn test_nested_quote_renders_nested() {
    let result = tokenize_text(vec![String::from("> > deep")]);
    assert_eq!(result, vec!["<q>[DEBUG]<q>deep</q></q>"]);
}

#[test]
fn test_quote_transforms_inline_spans() {
    let token = tokenize_line(String::from("> some **bold** words")).unwrap();
    match token {
        Token::Quote { text, nested_token } => {
            assert_eq!(text, "some <strong>bold</strong> words");
            assert!(matches!(*nested_token, Token::Empty {}));
        }
        _ => panic!("Expected Quote token"),
    }
}

#[test]
fn test_header_level_three() {
    let result = tokenize_text(vec![String::from("### Three")]);
    assert_eq!(result, vec!["<h3>Three</h3>"]);
}

#[test]
fn test_header_level_six() {
    let result = tokenize_text(vec![String::from("###### Six")]);
    assert_eq!(result, vec!["<h6>Six</h6>"]);
}

#[test]
fn test_header_only_hashes_is_paragraph() {
    let token = tokenize_line(String::from("###")).unwrap();
    match token {
        Token::Paragraph { text } => assert_eq!(text, "###"),
        _ => panic!("A line of only # markers should fall through to Paragraph"),
    }
}

#[test]
fn test_ulist_star_and_plus_markers() {
    match tokenize_line(String::from("* starred")).unwrap() {
        Token::UListItem { text } => assert_eq!(text, "starred"),
        _ => panic!("Expected UListItem token"),
    }
    match tokenize_line(String::from("+ plussed")).unwrap() {
        Token::UListItem { text } => assert_eq!(text, "plussed"),
        _ => panic!("Expected UListItem token"),
    }
}

#[test]
fn test_olist_multi_digit_and_tab() {
    match tokenize_line(String::from("12. twelfth")).unwrap() {
        Token::OListItem { text } => assert_eq!(text, "twelfth"),
        _ => panic!("Expected OListItem token"),
    }
    match tokenize_line(String::from("1.\ttabbed")).unwrap() {
        Token::OListItem { text } => assert_eq!(text, "tabbed"),
        _ => panic!("Expected OListItem token"),
    }
}

#[test]
fn test_horiz_rule_trimmed() {
    let token = tokenize_line(String::from("  ---  ")).unwrap();
    assert!(matches!(token, Token::HorizLine {}));
}

#[test]
fn test_rule_and_break_render() {
    let result = tokenize_text(vec![String::from("---"), String::from("")]);
    assert_eq!(result, vec!["<hr>", "<br/>"]);
}

#[test]
fn test_ordered_list_is_bracketed() {
    let result = tokenize_text(vec![
        String::from("1. one"),
        String::from("2. two"),
        String::from("after"),
    ]);
    assert_eq!(
        result,
        vec!["<ol>", "<li>one</li>", "<li>two</li>", "</ol>", "<p>after</p>"]
    );
}

#[test]
fn test_trailing_ordered_list_is_closed() {
    let result = tokenize_text(vec![String::from("1. only")]);
    assert_eq!(result, vec!["<ol>", "<li>only</li>", "</ol>"]);
}

#[test]
fn test_list_closed_before_fence_and_raw_interior() {
    let result = tokenize_text(vec![
        String::from("1. item"),
        String::from("```"),
        String::from("raw **not bold**"),
        String::from("```"),
    ]);
    assert_eq!(
        result,
        vec![
            "<ol>",
            "<li>item</li>",
            "</ol>",
            "<pre><code>",
            "raw **not bold**",
            "</code></pre>",
        ]
    );
}

#[test]
fn test_empty_document() {
    let result = tokenize_text(Vec::new());
    assert_eq!(result, Vec::<String>::new());
}

#[test]
fn test_fence_with_trailing_text_is_delimiter() {
    let token = tokenize_line(String::from("```rust")).unwrap();
    assert!(matches!(token, Token::CodeBlock {}));
}

#[test]
fn test_empty_link_text_and_url() {
    let mut line = String::from("an []() empty link");
    let html = convert_inline_markdown(&mut line);
    assert_eq!(html, "an <a href=\"\"></a> empty link");
}

#[test]
fn test_quote_of_ordered_item_renders_nested() {
    let result = tokenize_text(vec![String::from("> 1. item")]);
    assert_eq!(result, vec!["<q>[DEBUG]<li>item</li></q>"]);
}

#[test]
fn test_full_document_with_code_block() {
    let markdown_lines = vec![
        String::from("# Header"),
        String::from("This is a paragraph."),
        String::from("- List item"),
        String::from("```"),
        String::from("Code block content"),
        String::from("```"),
    ];
    let result = tokenize_text(markdown_lines);
    assert_eq!(
        result,
        vec![
            "<h1>Header</h1>",
            "<p>This is a paragraph.</p>",
            "<li>List item</li>",
            "<pre><code>",
            "Code block content",
            "</code></pre>",
        ]
    );
}
