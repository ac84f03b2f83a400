//! The block grouper and the whole conversion pipeline. The grouper makes
//! one left-to-right pass over the classified tokens, carrying two pieces of
//! state: whether the previous token was an ordered-list item, and whether
//! the pass stands inside a fenced code block. It only inserts bracket
//! tokens and replaces fence-interior tokens with raw text — it never
//! reorders or deletes.

use vstd::prelude::*;

use crate::classify::classify_spec;
use crate::classify::tokenize_line;
use crate::token::render_spec;
use crate::token::token_view;
use crate::token::Token;
use crate::token::TokenSpec;

verus! {

/// The grouper's output from position `i` on, given the carried state.
///
/// - An ordered-list item not preceded by one gets `OLStart` before it; a
///   token that ends a run of ordered-list items gets `OLEnd` before it, and
///   a run still open at the end of input is closed then.
/// - A fence delimiter becomes `CodeBlockStart` or `CodeBlockEnd` by the
///   carried parity, and flips it; the delimiter itself is never emitted.
/// - Inside a fence every other token is replaced by the raw, untransformed
///   line text. A fence left open at the end of input is not closed.
pub open spec fn group_rec(
    toks: Seq<TokenSpec>,
    raws: Seq<Seq<char>>,
    i: int,
    prev_ol: bool,
    inside: bool,
) -> Seq<TokenSpec>
    decreases toks.len() - i,
{
    if i < 0 || i >= toks.len() {
        if prev_ol {
            seq![TokenSpec::OLEnd]
        } else {
            Seq::empty()
        }
    } else {
        let t = toks[i];
        let is_ol = t is OListItem;
        let brackets = if is_ol && !prev_ol {
            seq![TokenSpec::OLStart]
        } else if !is_ol && prev_ol {
            seq![TokenSpec::OLEnd]
        } else {
            Seq::empty()
        };
        let emitted = if t is CodeBlock {
            seq![
                if inside {
                    TokenSpec::CodeBlockEnd
                } else {
                    TokenSpec::CodeBlockStart
                },
            ]
        } else if inside {
            seq![TokenSpec::SimpleText { text: raws[i] }]
        } else {
            seq![t]
        };
        let next_inside = if t is CodeBlock {
            !inside
        } else {
            inside
        };
        brackets + emitted + group_rec(toks, raws, i + 1, is_ol, next_inside)
    }
}

/// One grouping pass over a whole token sequence, starting outside any list
/// and outside any fence.
pub open spec fn group_spec(toks: Seq<TokenSpec>, raws: Seq<Seq<char>>) -> Seq<TokenSpec> {
    group_rec(toks, raws, 0, false, false)
}

/// The views of a sequence of strings.
pub open spec fn string_views(v: Seq<String>) -> Seq<Seq<char>> {
    v.map_values(|s: String| s@)
}

/// The views of a sequence of tokens.
pub open spec fn token_views(v: Seq<Token>) -> Seq<TokenSpec> {
    v.map_values(|t: Token| token_view(t))
}

/// The classification of every line, one token per line, in order.
pub open spec fn classify_all(lines: Seq<Seq<char>>) -> Seq<TokenSpec> {
    lines.map_values(|l: Seq<char>| classify_spec(l))
}

/// The rendering of every token, one HTML line per token, in order.
pub open spec fn render_all(toks: Seq<TokenSpec>) -> Seq<Seq<char>> {
    toks.map_values(|t: TokenSpec| render_spec(t))
}

/// The whole pipeline: classify each line, group the token sequence, render
/// each token.
pub open spec fn convert_spec(lines: Seq<Seq<char>>) -> Seq<Seq<char>> {
    render_all(group_spec(classify_all(lines), lines))
}

/// The number of ambiguous fence-delimiter tokens in `toks` from position
/// `i` on.
pub open spec fn count_fences(toks: Seq<TokenSpec>, i: int) -> int
    decreases toks.len() - i,
{
    if i < 0 || i >= toks.len() {
        0
    } else {
        (if toks[i] is CodeBlock {
            1int
        } else {
            0int
        }) + count_fences(toks, i + 1)
    }
}

/// The number of fence-closing tokens in a grouped sequence.
pub open spec fn count_fence_ends(out: Seq<TokenSpec>) -> int
    decreases out.len(),
{
    if out.len() == 0 {
        0
    } else {
        (if out[0] is CodeBlockEnd {
            1int
        } else {
            0int
        }) + count_fence_ends(out.skip(1))
    }
}

proof fn lemma_count_fence_ends_single(t: TokenSpec)
    ensures
        count_fence_ends(seq![t]) == (if t is CodeBlockEnd {
            1int
        } else {
            0int
        }),
{
    assert(seq![t].skip(1) =~= Seq::<TokenSpec>::empty());
    assert(count_fence_ends(Seq::<TokenSpec>::empty()) == 0);
}

proof fn lemma_count_fence_ends_add(a: Seq<TokenSpec>, b: Seq<TokenSpec>)
    ensures
        count_fence_ends(a + b) == count_fence_ends(a) + count_fence_ends(b),
    decreases a.len(),
{
    if a.len() == 0 {
        assert(a + b =~= b);
    } else {
        assert((a + b).skip(1) =~= a.skip(1) + b);
        lemma_count_fence_ends_add(a.skip(1), b);
    }
}

proof fn lemma_group_rec_fence_ends(
    toks: Seq<TokenSpec>,
    raws: Seq<Seq<char>>,
    i: int,
    prev_ol: bool,
    inside: bool,
)
    requires
        (forall|k: int| 0 <= k < toks.len() ==> !(#[trigger] toks[k] is CodeBlockEnd)),
    ensures
        count_fence_ends(group_rec(toks, raws, i, prev_ol, inside)) == (count_fences(toks, i) + (
        if inside {
            1int
        } else {
            0int
        })) / 2,
    decreases toks.len() - i,
{
    if i < 0 || i >= toks.len() {
        if prev_ol {
            lemma_count_fence_ends_single(TokenSpec::OLEnd);
        }
    } else {
        let t = toks[i];
        let is_ol = t is OListItem;
        let brackets = if is_ol && !prev_ol {
            seq![TokenSpec::OLStart]
        } else if !is_ol && prev_ol {
            seq![TokenSpec::OLEnd]
        } else {
            Seq::<TokenSpec>::empty()
        };
        let emitted = if t is CodeBlock {
            seq![
                if inside {
                    TokenSpec::CodeBlockEnd
                } else {
                    TokenSpec::CodeBlockStart
                },
            ]
        } else if inside {
            seq![TokenSpec::SimpleText { text: raws[i] }]
        } else {
            seq![t]
        };
        let next_inside = if t is CodeBlock {
            !inside
        } else {
            inside
        };
        lemma_group_rec_fence_ends(toks, raws, i + 1, is_ol, next_inside);
        let tail = group_rec(toks, raws, i + 1, is_ol, next_inside);
        lemma_count_fence_ends_add(brackets, emitted + tail);
        lemma_count_fence_ends_add(emitted, tail);
        assert(group_rec(toks, raws, i, prev_ol, inside) =~= brackets + (emitted + tail));
        if is_ol && !prev_ol {
            lemma_count_fence_ends_single(TokenSpec::OLStart);
        } else if !is_ol && prev_ol {
            lemma_count_fence_ends_single(TokenSpec::OLEnd);
        } else {
            assert(count_fence_ends(Seq::<TokenSpec>::empty()) == 0);
        }
        assert(count_fence_ends(brackets) == 0);
        assert(emitted.len() == 1);
        lemma_count_fence_ends_single(emitted[0]);
        assert(emitted =~= seq![emitted[0]]);
        assert(!(toks[i] is CodeBlockEnd));
        assert(count_fence_ends(emitted) == (if t is CodeBlock && inside {
            1int
        } else {
            0int
        }));
    }
}

/// Law: over a classified token sequence (one that holds no synthetic
/// bracket tokens of its own), the grouping pass emits exactly one
/// fence-closing marker per completed pair of fence delimiters: with
/// `2k` or `2k + 1` delimiters it emits `k` closing markers. A fence opened
/// and never closed therefore never gets a closing marker.
pub proof fn lemma_unterminated_fence_not_closed(toks: Seq<TokenSpec>, raws: Seq<Seq<char>>)
    requires
        (forall|k: int| 0 <= k < toks.len() ==> !(#[trigger] toks[k] is CodeBlockEnd)),
    ensures
        count_fence_ends(group_spec(toks, raws)) == count_fences(toks, 0) / 2,
{
    lemma_group_rec_fence_ends(toks, raws, 0, false, false);
}

/// Converts a document, given as its source lines, to its HTML lines:
/// classifies each line, brackets ordered-list runs and fenced code blocks,
/// and renders each resulting token.
#[verifier::rlimit(50)]
pub fn tokenize_text(lines: Vec<String>) -> (r: Vec<String>)
    ensures
        string_views(r@) == convert_spec(string_views(lines@)),
{
    let ghost raws: Seq<Seq<char>> = string_views(lines@);
    let ghost tspec: Seq<TokenSpec> = classify_all(raws);

    let mut tokens: Vec<Token> = Vec::new();
    let mut i: usize = 0;
    while i < lines.len()
        invariant
            i <= lines.len(),
            raws == string_views(lines@),
            tspec == classify_all(raws),
            tokens@.len() == i,
            forall|k: int| 0 <= k < i ==> token_view(tokens@[k]) == tspec[k],
        decreases lines.len() - i,
    {
        let tok = match tokenize_line(lines[i].clone()) {
            Ok(t) => t,
            Err(_) => Token::BreakLine {},
        };
        tokens.push(tok);
        i = i + 1;
    }

    let mut grouped: Vec<Token> = Vec::new();
    let mut prev_ol: bool = false;
    let mut inside: bool = false;
    let mut j: usize = 0;
    while j < tokens.len()
        invariant
            j <= tokens.len(),
            tokens@.len() == lines@.len(),
            raws == string_views(lines@),
            tspec == classify_all(raws),
            forall|k: int| 0 <= k < tokens@.len() ==> token_view(tokens@[k]) == tspec[k],
            token_views(grouped@) + group_rec(tspec, raws, j as int, prev_ol, inside)
                == group_rec(tspec, raws, 0, false, false),
        decreases tokens.len() - j,
    {
        let ghost g0 = token_views(grouped@);
        let ghost prev0 = prev_ol;
        let ghost inside0 = inside;
        let is_ol = matches!(&tokens[j], Token::OListItem { .. });
        let is_fence = matches!(&tokens[j], Token::CodeBlock { .. });
        proof {
            assert(token_view(tokens@[j as int]) == tspec[j as int]);
            assert(is_ol == (tspec[j as int] is OListItem));
            assert(is_fence == (tspec[j as int] is CodeBlock));
        }
        if is_ol && !prev_ol {
            grouped.push(Token::OLStart {});
        } else if !is_ol && prev_ol {
            grouped.push(Token::OLEnd {});
        }
        if is_fence {
            if inside {
                grouped.push(Token::CodeBlockEnd {});
            } else {
                grouped.push(Token::CodeBlockStart {});
            }
            inside = !inside;
        } else if inside {
            grouped.push(Token::SimpleText { text: lines[j].clone() });
        } else {
            let copy = tokens[j].clone();
            grouped.push(copy);
        }
        prev_ol = is_ol;
        proof {
            let t = tspec[j as int];
            let brackets = if is_ol && !prev0 {
                seq![TokenSpec::OLStart]
            } else if !is_ol && prev0 {
                seq![TokenSpec::OLEnd]
            } else {
                Seq::<TokenSpec>::empty()
            };
            let emitted = if t is CodeBlock {
                seq![
                    if inside0 {
                        TokenSpec::CodeBlockEnd
                    } else {
                        TokenSpec::CodeBlockStart
                    },
                ]
            } else if inside0 {
                seq![TokenSpec::SimpleText { text: raws[j as int] }]
            } else {
                seq![t]
            };
            assert(raws[j as int] == lines@[j as int]@);
            assert(token_views(grouped@) =~= g0 + brackets + emitted);
            assert(group_rec(tspec, raws, j as int, prev0, inside0) == brackets + emitted
                + group_rec(tspec, raws, j as int + 1, is_ol, inside));
            assert(token_views(grouped@) + group_rec(tspec, raws, j as int + 1, is_ol, inside)
                =~= g0 + group_rec(tspec, raws, j as int, prev0, inside0));
        }
        j = j + 1;
    }
    if prev_ol {
        grouped.push(Token::OLEnd {});
    }
    proof {
        assert(token_views(grouped@) =~= group_spec(tspec, raws));
    }

    let ghost gviews = token_views(grouped@);
    let mut result: Vec<String> = Vec::new();
    let mut k: usize = 0;
    while k < grouped.len()
        invariant
            k <= grouped.len(),
            gviews == token_views(grouped@),
            result@.len() == k,
            forall|m: int| 0 <= m < k ==> result@[m]@ == render_spec(gviews[m]),
        decreases grouped.len() - k,
    {
        let html = grouped[k].render();
        result.push(html);
        k = k + 1;
    }
    proof {
        assert(string_views(result@) =~= render_all(gviews));
    }
    result
}

} // verus!
