//! The line classifier: maps one line of source text to a structural
//! [`Token`]. Rules are tried in a fixed priority order — header, block
//! quote, horizontal rule, unordered-list item, fence delimiter,
//! ordered-list item, blank line — and an unrecognized line falls through to
//! a paragraph. The classifier is total: it never fails.

use vstd::prelude::*;

use crate::inline::convert_inline_markdown;
use crate::inline::lemma_transform_depth;
use crate::inline::transform_spec;
use crate::text::digit_run_end;
use crate::text::is_digit_char;
use crate::text::is_ws;
use crate::text::is_ws_char;
use crate::text::lemma_blank_iff_trim_start_at_end;
use crate::text::lemma_digit_run_end;
use crate::text::lemma_run_end;
use crate::text::lemma_trim_end;
use crate::text::lemma_ws_run_end;
use crate::text::quote_depth;
use crate::text::run_end;
use crate::text::scan_digit_run;
use crate::text::scan_run;
use crate::text::trim_bounds;
use crate::text::trim_end;
use crate::text::trim_spec;
use crate::text::trim_start;
use crate::token::token_view;
use crate::token::Token;
use crate::token::TokenSpec;

verus! {

/// The length of an ordered-list marker at the head of the line — one or
/// more digits, a dot, one whitespace character — or 0 when there is none.
pub open spec fn olist_prefix_len(s: Seq<char>) -> int {
    let dn = digit_run_end(s, 0);
    if dn > 0 && dn + 1 < s.len() && s[dn] == '.' && is_ws_char(s[dn + 1]) {
        dn + 2
    } else {
        0
    }
}

/// The classification of one line, tried in priority order.
///
/// - A run of `#` followed by one space is a header of that level (the
///   level saturates at 255); without the space the line is no header.
/// - `"> "` opens a block quote: the rest is inline-transformed and
///   classified again. A nested paragraph collapses into the quote's own
///   text; any other nested token is kept whole behind the literal
///   placeholder text `[DEBUG]`.
/// - A line whose trimmed text is exactly `---` is a horizontal rule.
/// - `-`, `*` or `+` followed by a space is an unordered-list item.
/// - Three backticks open or close a fenced code block; which of the two is
///   settled later by the grouper.
/// - Digits, a dot and a whitespace character make an ordered-list item.
/// - A line that is blank after trimming is a line break.
/// - Anything else is a paragraph with inline-transformed text.
pub open spec fn classify_spec(s: Seq<char>) -> TokenSpec
    decreases quote_depth(s),
{
    let hn = run_end(s, 0, '#');
    if hn > 0 && hn < s.len() && s[hn] == ' ' {
        TokenSpec::Header {
            level: if hn > 255 {
                255u8
            } else {
                hn as u8
            },
            text: transform_spec(s.skip(hn + 1)),
        }
    } else if s.len() >= 2 && s[0] == '>' && s[1] == ' ' {
        proof {
            lemma_transform_depth(s.skip(2));
        }
        let nested = classify_spec(transform_spec(s.skip(2)));
        match nested {
            TokenSpec::Paragraph { text } => TokenSpec::Quote {
                text,
                nested: Box::new(TokenSpec::Empty),
            },
            _ => TokenSpec::Quote { text: "[DEBUG]"@, nested: Box::new(nested) },
        }
    } else if trim_spec(s) == "---"@ {
        TokenSpec::HorizLine
    } else if s.len() >= 2 && (s[0] == '-' || s[0] == '*' || s[0] == '+') && s[1] == ' ' {
        TokenSpec::UListItem { text: transform_spec(s.skip(2)) }
    } else if s.len() >= 3 && s[0] == '`' && s[1] == '`' && s[2] == '`' {
        TokenSpec::CodeBlock
    } else if olist_prefix_len(s) > 0 {
        TokenSpec::OListItem { text: transform_spec(s.skip(olist_prefix_len(s))) }
    } else if trim_spec(s).len() == 0 {
        TokenSpec::BreakLine
    } else {
        TokenSpec::Paragraph { text: transform_spec(s) }
    }
}

/// A markdown-significant character: one that can open or delimit any
/// construct the classifier or the inline transformer recognizes.
pub open spec fn markdown_significant(c: char) -> bool {
    ||| c == '#'
    ||| c == '>'
    ||| c == '-'
    ||| c == '*'
    ||| c == '+'
    ||| c == '`'
    ||| c == '['
    ||| is_digit_char(c)
}

/// Law: a line holding no markdown-significant character, with at least one
/// non-whitespace character, classifies as a paragraph whose text is the
/// line itself, unchanged — on such a line the inline transform is the
/// identity. (A line of nothing but whitespace is excluded: it classifies
/// as a line break.)
pub proof fn lemma_plain_line_is_unchanged_paragraph(s: Seq<char>)
    requires
        (forall|i: int| 0 <= i < s.len() ==> !markdown_significant(s[i])),
        (exists|i: int| 0 <= i < s.len() && !is_ws_char(s[i])),
    ensures
        (classify_spec(s) == TokenSpec::Paragraph { text: s }),
{
    let w = choose|i: int| 0 <= i < s.len() && !is_ws_char(s[i]);
    assert(s.len() > 0);
    assert(!markdown_significant(s[0]));
    assert(run_end(s, 0, '#') == 0);
    assert(digit_run_end(s, 0) == 0);
    assert(olist_prefix_len(s) == 0);
    reveal_strlit("---");
    lemma_ws_run_end(s, 0);
    lemma_trim_end(s, s.len() as int);
    let a = trim_start(s);
    let b = trim_end(s, s.len() as int);
    if a <= b && trim_spec(s) == "---"@ {
        assert(trim_spec(s).len() == 3);
        assert(a < s.len());
        assert(trim_spec(s)[0] == s[a]);
        assert(!markdown_significant(s[a]));
    }
    assert(trim_spec(s) != "---"@);
    lemma_blank_iff_trim_start_at_end(s);
    if trim_start(s) == s.len() {
        assert(is_ws_char(s[w]));
    }
    assert(trim_spec(s).len() != 0);
    assert(forall|i: int| 0 <= i < s.len() ==> #[trigger] s[i] != '*' && s[i] != '[' && s[i]
        != '`') by {
        assert forall|i: int| 0 <= i < s.len() implies #[trigger] s[i] != '*' && s[i] != '['
            && s[i] != '`' by {
            assert(!markdown_significant(s[i]));
        }
    }
    crate::inline::lemma_transform_identity(s);
}

/// Classifies one line of source text. Total: every line gets a token, so
/// the result is always `Ok`.
#[verifier::rlimit(50)]
pub fn tokenize_line(line: String) -> (r: Result<Token, ()>)
    ensures
        r matches Ok(t) && t@ == classify_spec(line@),
    decreases quote_depth(line@),
{
    let s = line.as_str();
    let n = s.unicode_len();
    let hn = scan_run(s, 0, '#');
    proof {
        lemma_run_end(s@, 0, '#');
    }
    if hn > 0 && hn < n && s.get_char(hn) == ' ' {
        let mut rem = s.substring_char(hn + 1, n).to_owned();
        let text = convert_inline_markdown(&mut rem);
        let level: u8 = if hn > 255 {
            255
        } else {
            hn as u8
        };
        proof {
            assert(rem@ =~= line@.skip(hn as int + 1));
        }
        return Ok(Token::Header { level, text });
    }
    if n >= 2 && s.get_char(0) == '>' && s.get_char(1) == ' ' {
        let mut rem = s.substring_char(2, n).to_owned();
        let t = convert_inline_markdown(&mut rem);
        proof {
            assert(rem@ =~= line@.skip(2));
            lemma_transform_depth(line@.skip(2));
            assert(quote_depth(t@) < quote_depth(line@));
        }
        let nested = tokenize_line(t).unwrap();
        match nested {
            Token::Paragraph { text } => {
                proof {
                    assert(token_view(Token::Empty {}) == TokenSpec::Empty);
                    assert(classify_spec(line@) == TokenSpec::Quote {
                        text: text@,
                        nested: Box::new(TokenSpec::Empty),
                    });
                }
                return Ok(
                    Token::Quote { text, nested_token: Box::new(Token::Empty {}) },
                );
            },
            _ => {
                return Ok(
                    Token::Quote {
                        text: String::from_str("[DEBUG]"),
                        nested_token: Box::new(nested),
                    },
                );
            },
        }
    }
    let (a, b) = trim_bounds(s);
    proof {
        lemma_ws_run_end(s@, 0);
        lemma_trim_end(s@, n as int);
        reveal_strlit("---");
    }
    if b >= a && b - a == 3 && s.get_char(a) == '-' && s.get_char(a + 1) == '-' && s.get_char(
        a + 2,
    ) == '-' {
        proof {
            assert(trim_spec(line@) =~= "---"@);
        }
        return Ok(Token::HorizLine {});
    }
    proof {
        if a <= b {
            assert(trim_spec(line@) == line@.subrange(a as int, b as int));
            if b - a == 3 {
                assert(trim_spec(line@)[0] == line@[a as int]);
                assert(trim_spec(line@)[1] == line@[a as int + 1]);
                assert(trim_spec(line@)[2] == line@[a as int + 2]);
            }
        }
        assert(trim_spec(line@) != "---"@);
    }
    if n >= 2 {
        let c0 = s.get_char(0);
        if (c0 == '-' || c0 == '*' || c0 == '+') && s.get_char(1) == ' ' {
            let mut rem = s.substring_char(2, n).to_owned();
            let text = convert_inline_markdown(&mut rem);
            proof {
                assert(rem@ =~= line@.skip(2));
            }
            return Ok(Token::UListItem { text });
        }
    }
    if n >= 3 && s.get_char(0) == '`' && s.get_char(1) == '`' && s.get_char(2) == '`' {
        return Ok(Token::CodeBlock {});
    }
    let dn = scan_digit_run(s);
    proof {
        lemma_digit_run_end(s@, 0);
    }
    if dn > 0 && n - dn > 1 && s.get_char(dn) == '.' && is_ws(s.get_char(dn + 1)) {
        let mut rem = s.substring_char(dn + 2, n).to_owned();
        let text = convert_inline_markdown(&mut rem);
        proof {
            assert(olist_prefix_len(line@) == dn as int + 2);
            assert(rem@ =~= line@.skip(olist_prefix_len(line@)));
        }
        return Ok(Token::OListItem { text });
    }
    proof {
        lemma_blank_iff_trim_start_at_end(line@);
    }
    if a == n {
        return Ok(Token::BreakLine {});
    }
    let mut rem = line.clone();
    let text = convert_inline_markdown(&mut rem);
    Ok(Token::Paragraph { text })
}

} // verus!
