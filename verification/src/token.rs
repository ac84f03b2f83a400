//! The structural token produced by the line classifier, its mathematical
//! model, and the renderer that maps each token to its HTML line.

use vstd::prelude::*;

verus! {

/// One classified unit of document structure, or a synthetic bracket marker
/// inserted by the block grouper.
pub enum Token {
    /// A heading: `level` counts the leading `#` markers.
    Header { level: u8, text: String },
    /// An ordinary text line.
    Paragraph { text: String },
    /// One bullet of an unordered list.
    UListItem { text: String },
    /// Opens a run of ordered-list items.
    OLStart {},
    /// Closes a run of ordered-list items.
    OLEnd {},
    /// One item of an ordered list.
    OListItem { text: String },
    /// A raw line, rendered verbatim (the interior of a fenced code block).
    SimpleText { text: String },
    /// A block quote holding its own text and one nested classification.
    Quote { text: String, nested_token: Box<Token> },
    /// Opens a fenced code block.
    CodeBlockStart {},
    /// Closes a fenced code block.
    CodeBlockEnd {},
    /// An ambiguous fence delimiter line; the grouper resolves whether it
    /// opens or closes.
    CodeBlock {},
    /// A horizontal rule line.
    HorizLine {},
    /// A blank line.
    BreakLine {},
    /// The sentinel token; renders as nothing.
    Empty {},
}

/// The mathematical model of a [`Token`]: the same shape over `Seq<char>`.
pub enum TokenSpec {
    Header { level: u8, text: Seq<char> },
    Paragraph { text: Seq<char> },
    UListItem { text: Seq<char> },
    OLStart,
    OLEnd,
    OListItem { text: Seq<char> },
    SimpleText { text: Seq<char> },
    Quote { text: Seq<char>, nested: Box<TokenSpec> },
    CodeBlockStart,
    CodeBlockEnd,
    CodeBlock,
    HorizLine,
    BreakLine,
    Empty,
}

/// The model of a token: each text payload abstracted to its character
/// sequence.
pub open spec fn token_view(t: Token) -> TokenSpec
    decreases t,
{
    match t {
        Token::Header { level, text } => TokenSpec::Header { level, text: text@ },
        Token::Paragraph { text } => TokenSpec::Paragraph { text: text@ },
        Token::UListItem { text } => TokenSpec::UListItem { text: text@ },
        Token::OLStart {} => TokenSpec::OLStart,
        Token::OLEnd {} => TokenSpec::OLEnd,
        Token::OListItem { text } => TokenSpec::OListItem { text: text@ },
        Token::SimpleText { text } => TokenSpec::SimpleText { text: text@ },
        Token::Quote { text, nested_token } => TokenSpec::Quote {
            text: text@,
            nested: Box::new(token_view(*nested_token)),
        },
        Token::CodeBlockStart {} => TokenSpec::CodeBlockStart,
        Token::CodeBlockEnd {} => TokenSpec::CodeBlockEnd,
        Token::CodeBlock {} => TokenSpec::CodeBlock,
        Token::HorizLine {} => TokenSpec::HorizLine,
        Token::BreakLine {} => TokenSpec::BreakLine,
        Token::Empty {} => TokenSpec::Empty,
    }
}

impl View for Token {
    type V = TokenSpec;

    open spec fn view(&self) -> TokenSpec {
        token_view(*self)
    }
}

impl Clone for Token {
    fn clone(&self) -> (r: Self)
        ensures
            r@ == self@,
        decreases *self,
    {
        match self {
            Token::Header { level, text } => Token::Header {
                level: *level,
                text: text.clone(),
            },
            Token::Paragraph { text } => Token::Paragraph { text: text.clone() },
            Token::UListItem { text } => Token::UListItem { text: text.clone() },
            Token::OListItem { text } => Token::OListItem { text: text.clone() },
            Token::SimpleText { text } => Token::SimpleText { text: text.clone() },
            Token::Quote { text, nested_token } => Token::Quote {
                text: text.clone(),
                nested_token: Box::new((**nested_token).clone()),
            },
            Token::OLStart {} => Token::OLStart {},
            Token::OLEnd {} => Token::OLEnd {},
            Token::CodeBlockStart {} => Token::CodeBlockStart {},
            Token::CodeBlockEnd {} => Token::CodeBlockEnd {},
            Token::HorizLine {} => Token::HorizLine {},
            Token::BreakLine {} => Token::BreakLine {},
            Token::Empty {} => Token::Empty {},
            Token::CodeBlock {} => Token::CodeBlock {},
        }
    }
}

/// The character for one decimal digit value.
pub open spec fn digit_char(d: int) -> char {
    if d == 0 {
        '0'
    } else if d == 1 {
        '1'
    } else if d == 2 {
        '2'
    } else if d == 3 {
        '3'
    } else if d == 4 {
        '4'
    } else if d == 5 {
        '5'
    } else if d == 6 {
        '6'
    } else if d == 7 {
        '7'
    } else if d == 8 {
        '8'
    } else {
        '9'
    }
}

/// The decimal numeral of a header level, without leading zeros.
pub open spec fn level_digits(n: int) -> Seq<char> {
    if n >= 100 {
        seq![digit_char(n / 100), digit_char((n / 10) % 10), digit_char(n % 10)]
    } else if n >= 10 {
        seq![digit_char(n / 10), digit_char(n % 10)]
    } else {
        seq![digit_char(n)]
    }
}

/// The HTML line for one token, byte for byte: `<h{level}>…</h{level}>`,
/// `<p>…</p>`, `<li>…</li>`, `<ol>`, `</ol>`, `<q>…{nested}</q>`,
/// `<pre><code>`, `</code></pre>`, verbatim text, `<hr>`, `<br/>`, or
/// nothing.
pub open spec fn render_spec(t: TokenSpec) -> Seq<char>
    decreases t,
{
    match t {
        TokenSpec::Header { level, text } => "<h"@ + level_digits(level as int) + ">"@ + text
            + "</h"@ + level_digits(level as int) + ">"@,
        TokenSpec::Paragraph { text } => "<p>"@ + text + "</p>"@,
        TokenSpec::UListItem { text } => "<li>"@ + text + "</li>"@,
        TokenSpec::OListItem { text } => "<li>"@ + text + "</li>"@,
        TokenSpec::Quote { text, nested } => "<q>"@ + text + render_spec(*nested) + "</q>"@,
        TokenSpec::OLStart => "<ol>"@,
        TokenSpec::OLEnd => "</ol>"@,
        TokenSpec::SimpleText { text } => text,
        TokenSpec::CodeBlockStart => "<pre><code>"@,
        TokenSpec::CodeBlockEnd => "</code></pre>"@,
        TokenSpec::CodeBlock => Seq::empty(),
        TokenSpec::HorizLine => "<hr>"@,
        TokenSpec::BreakLine => "<br/>"@,
        TokenSpec::Empty => Seq::empty(),
    }
}

/// One decimal digit as a string slice.
fn digit_str(d: u8) -> (r: &'static str)
    requires
        d < 10,
    ensures
        r@ == seq![digit_char(d as int)],
{
    let r: &'static str = match d {
        0 => "0",
        1 => "1",
        2 => "2",
        3 => "3",
        4 => "4",
        5 => "5",
        6 => "6",
        7 => "7",
        8 => "8",
        _ => "9",
    };
    proof {
        reveal_strlit("0");
        reveal_strlit("1");
        reveal_strlit("2");
        reveal_strlit("3");
        reveal_strlit("4");
        reveal_strlit("5");
        reveal_strlit("6");
        reveal_strlit("7");
        reveal_strlit("8");
        reveal_strlit("9");
        assert(r@ =~= seq![digit_char(d as int)]);
    }
    r
}

/// Appends the decimal numeral of `n` to `out`.
fn append_level(out: &mut String, n: u8)
    ensures
        final(out)@ == old(out)@ + level_digits(n as int),
{
    if n >= 100 {
        out.append(digit_str(n / 100));
        out.append(digit_str((n / 10) % 10));
        out.append(digit_str(n % 10));
        assert(out@ =~= old(out)@ + level_digits(n as int));
    } else if n >= 10 {
        out.append(digit_str(n / 10));
        out.append(digit_str(n % 10));
        assert(out@ =~= old(out)@ + level_digits(n as int));
    } else {
        out.append(digit_str(n));
        assert(out@ =~= old(out)@ + level_digits(n as int));
    }
}

impl Token {
    /// Renders this token as its HTML line.
    pub fn render(&self) -> (r: String)
        ensures
            r@ == render_spec(self@),
        decreases *self,
    {
        match self {
            Token::Header { level, text } => {
                let mut out = String::new();
                out.append("<h");
                append_level(&mut out, *level);
                out.append(">");
                out.append(text.as_str());
                out.append("</h");
                append_level(&mut out, *level);
                out.append(">");
                proof {
                    assert(out@ =~= render_spec(self@));
                }
                out
            },
            Token::Paragraph { text } => {
                let mut out = String::new();
                out.append("<p>");
                out.append(text.as_str());
                out.append("</p>");
                proof {
                    assert(out@ =~= render_spec(self@));
                }
                out
            },
            Token::UListItem { text } => {
                let mut out = String::new();
                out.append("<li>");
                out.append(text.as_str());
                out.append("</li>");
                proof {
                    assert(out@ =~= render_spec(self@));
                }
                out
            },
            Token::OListItem { text } => {
                let mut out = String::new();
                out.append("<li>");
                out.append(text.as_str());
                out.append("</li>");
                proof {
                    assert(out@ =~= render_spec(self@));
                }
                out
            },
            Token::Quote { text, nested_token } => {
                let mut out = String::new();
                out.append("<q>");
                out.append(text.as_str());
                let nested = nested_token.render();
                out.append(nested.as_str());
                out.append("</q>");
                proof {
                    assert(out@ =~= render_spec(self@));
                }
                out
            },
            Token::OLStart {} => {
                let out = String::from_str("<ol>");
                out
            },
            Token::OLEnd {} => {
                let out = String::from_str("</ol>");
                out
            },
            Token::SimpleText { text } => {
                let out = text.clone();
                out
            },
            Token::CodeBlockStart {} => {
                let out = String::from_str("<pre><code>");
                out
            },
            Token::CodeBlockEnd {} => {
                let out = String::from_str("</code></pre>");
                out
            },
            Token::CodeBlock {} => {
                let out = String::new();
                out
            },
            Token::HorizLine {} => {
                let out = String::from_str("<hr>");
                out
            },
            Token::BreakLine {} => {
                let out = String::from_str("<br/>");
                out
            },
            Token::Empty {} => {
                let out = String::new();
                out
            },
        }
    }
}

} // verus!
