//! Holds the verified inline transformer against a regex-based oracle that
//! spells out the same rewriting rules: each stage repeatedly takes the
//! regex engine's first match (leftmost start, shortest inner span) and
//! rewrites it, exactly as the library's specification describes.

use regex::Regex;

use markdown_parser::convert_inline_markdown;
use markdown_parser::tokenize_line;
use markdown_parser::Token;

fn rewrite_all(s: &str, re: &Regex, open: &str, close: &str, trim: usize) -> String {
    let mut rest = s.to_string();
    let mut out = String::new();
    while let Some(m) = re.find(&rest) {
        out.push_str(&rest[..m.start()]);
        let inner = &rest[m.start() + trim..m.end() - trim];
        out.push_str(open);
        out.push_str(inner);
        out.push_str(close);
        rest = rest[m.end()..].to_string();
    }
    out.push_str(&rest);
    out
}

fn rewrite_links(s: &str) -> String {
    let re = Regex::new(r"\[[^\[\]]*(?:\[[^\[\]]*\][^\[\]]*)*\]\([^()]*\)").unwrap();
    let text_re = Regex::new(r"\[[^\[\]]*(?:\[[^\[\]]*\][^\[\]]*)*\]").unwrap();
    let mut rest = s.to_string();
    let mut out = String::new();
    while let Some(m) = re.find(&rest) {
        out.push_str(&rest[..m.start()]);
        let found = &rest[m.range()];
        let text_range = text_re.find(found).unwrap();
        let link_text = &found[1..text_range.end() - 1];
        let link_url = &found[text_range.end() + 1..found.len() - 1];
        out.push_str(&format!("<a href=\"{}\">{}</a>", link_url, link_text));
        rest = rest[m.end()..].to_string();
    }
    out.push_str(&rest);
    out
}

fn rewrite_code(s: &str) -> String {
    let re = Regex::new(r"(`+)([^`]*)(`+)").unwrap();
    if let Some(groups) = re.captures(s) {
        let whole = groups.get(0).unwrap();
        let first = &groups[1];
        let mut inner = groups[2].to_string();
        let end = &groups[3];
        if !inner.is_empty() {
            let min_len = first.len().min(end.len());
            if min_len == first.len() && min_len != end.len() {
                inner = format!("{}{}", inner, &end[0..end.len() - min_len]);
            } else if min_len == end.len() && min_len != first.len() {
                inner = format!("{}{}", &first[0..first.len() - min_len], inner);
            }
            return format!(
                "{}<code>{}</code>{}",
                &s[..whole.start()],
                inner,
                &s[whole.end()..]
            );
        }
    }
    s.to_string()
}

fn oracle_transform(line: &str) -> String {
    let bold = rewrite_all(
        line,
        &Regex::new(r"\*\*(.+?)\*\*").unwrap(),
        "<strong>",
        "</strong>",
        2,
    );
    let italic = rewrite_all(&bold, &Regex::new(r"\*(.+?)\*").unwrap(), "<i>", "</i>", 1);
    let linked = rewrite_links(&italic);
    rewrite_code(&linked)
}

#[test]
fn test_transform_matches_regex_oracle() {
    let cases = [
        "",
        "plain words only",
        "This is **bold**, *italic*, and [a link](https://example.com).",
        "This is **bold text.",
        "This is *italic text.",
        "This is *italic and **bold*** text**.",
        "a **** b",
        "*****a**",
        "***bold***",
        "**a*b**",
        "* *",
        "** **",
        "*a* *b* *c*",
        "**x** then **y** then *z*",
        "nested *i **b** i* done",
        "A [link](https://example.com) here.",
        "A [link](https://example.com here.",
        "A link](https://example.com) here.",
        "[a](b)[c](d)",
        "See [outer [inner] text](https://example.com) now.",
        "[a [b [c] d] e](u)",
        "an []() empty link",
        "[*em*](u)",
        "**[b](u)**",
        "This is `code`.",
        "`a` and `b` are variables.",
        "This is `not closed.",
        "Here is a ``code with `backtick` inside`` example.",
        "a `x`` b",
        "a ``x` b",
        "``",
        "```",
        "`` ``",
        "``a``",
        "`a`b`c`",
        "`a``b`",
        "mix **b** `c` *i* [t](u) end",
        "`**not bold**`",
        "**`tick`**",
        "*[link](u)*",
        "!@#$%^&*()",
        "> not a quote here",
        "-- - --- -",
    ];
    for case in cases {
        let mut line = case.to_string();
        let got = convert_inline_markdown(&mut line);
        let want = oracle_transform(case);
        assert_eq!(got, want, "inline transform differs on {:?}", case);
    }
}

#[test]
fn test_olist_marker_matches_regex_oracle() {
    let re = Regex::new(r"^\d+\.\s").unwrap();
    let cases = [
        "1. a",
        "1.a",
        "12. b",
        "1.\tb",
        "007. x",
        "1 . x",
        ". x",
        "123",
        "1.",
        "1. ",
        "42.\u{00a0}nbsp",
    ];
    for case in cases {
        let token = tokenize_line(case.to_string()).unwrap();
        match re.find(case) {
            Some(m) => match token {
                Token::OListItem { text } => {
                    assert_eq!(text, &case[m.end()..], "payload differs on {:?}", case)
                }
                _ => panic!("expected OListItem on {:?}", case),
            },
            None => assert!(
                !matches!(token, Token::OListItem { .. }),
                "unexpected OListItem on {:?}",
                case
            ),
        }
    }
}

#[test]
fn test_blank_line_matches_std_trim() {
    let cases = [
        "",
        " ",
        "\t\r\n",
        "\u{00a0}\u{2028}\u{3000}",
        " x ",
        "\u{1680}",
        "\u{2000}\u{200a}\u{205f}\u{202f}\u{2029}\u{0085}\u{000b}\u{000c}",
        "\u{200b}",
    ];
    for case in cases {
        let token = tokenize_line(case.to_string()).unwrap();
        assert_eq!(
            matches!(token, Token::BreakLine {}),
            case.trim().is_empty(),
            "blank-line judgement differs on {:?}",
            case
        );
    }
}
