//! The inline span transformer: rewrites bold, italic, link and inline-code
//! spans inside one line, in that fixed order. Each stage scans left to
//! right, always takes the leftmost match with the shortest inner span, and
//! leaves unterminated or malformed markers as literal text.

use vstd::prelude::*;

use crate::text::quote_depth;
use crate::text::run_end;
use crate::text::scan_run;
use crate::text::lemma_run_end;
use crate::text::lemma_quote_depth_replace;

verus! {

/// First position at or after `i` where a `**` marker begins.
pub open spec fn find_double_star(s: Seq<char>, i: int) -> Option<int>
    decreases s.len() - i,
{
    if i < 0 || i + 1 >= s.len() {
        None
    } else if s[i] == '*' && s[i + 1] == '*' {
        Some(i)
    } else {
        find_double_star(s, i + 1)
    }
}

/// The leftmost bold span starting at or after `i`: a `**` marker at `p`
/// whose closing `**` marker stands at `q`, the nearest one that leaves the
/// inner span `s[p+2..q]` non-empty.
pub open spec fn find_bold(s: Seq<char>, i: int) -> Option<(int, int)>
    decreases s.len() - i,
{
    if i < 0 || i + 1 >= s.len() {
        None
    } else if s[i] == '*' && s[i + 1] == '*' {
        match find_double_star(s, i + 3) {
            Some(q) => Some((i, q)),
            None => find_bold(s, i + 1),
        }
    } else {
        find_bold(s, i + 1)
    }
}

proof fn lemma_find_double_star(s: Seq<char>, i: int)
    ensures
        match find_double_star(s, i) {
            Some(q) => i <= q && q + 1 < s.len() && s[q] == '*' && s[q + 1] == '*',
            None => true,
        },
    decreases s.len() - i,
{
    if i < 0 || i + 1 >= s.len() {
    } else if s[i] == '*' && s[i + 1] == '*' {
    } else {
        lemma_find_double_star(s, i + 1);
    }
}

proof fn lemma_find_bold(s: Seq<char>, i: int)
    ensures
        match find_bold(s, i) {
            Some((p, q)) => i <= p && p + 1 < s.len() && s[p] == '*' && s[p + 1] == '*' && p + 3
                <= q && q + 1 < s.len() && s[q] == '*' && s[q + 1] == '*',
            None => true,
        },
    decreases s.len() - i,
{
    if i < 0 || i + 1 >= s.len() {
    } else if s[i] == '*' && s[i + 1] == '*' {
        lemma_find_double_star(s, i + 3);
        if find_double_star(s, i + 3) is None {
            lemma_find_bold(s, i + 1);
        }
    } else {
        lemma_find_bold(s, i + 1);
    }
}

/// The bold stage: repeatedly replaces the leftmost `**…**` span (non-empty
/// inner text, nearest closing marker) by `<strong>…</strong>` and goes on
/// after it; anything without a complete span is left as it stands.
pub open spec fn bold_rewrite(s: Seq<char>) -> Seq<char>
    decreases s.len(),
{
    match find_bold(s, 0) {
        None => s,
        Some((p, q)) => {
            if 0 <= p && p + 3 <= q && q + 2 <= s.len() {
                s.take(p) + "<strong>"@ + s.subrange(p + 2, q) + "</strong>"@ + bold_rewrite(
                    s.skip(q + 2),
                )
            } else {
                s
            }
        },
    }
}

/// Exec scan for the first `**` marker at or after `from`.
fn scan_double_star(s: &str, from: usize) -> (r: Option<usize>)
    ensures
        match r {
            Some(q) => find_double_star(s@, from as int) == Some(q as int),
            None => find_double_star(s@, from as int) is None,
        },
{
    let n = s.unicode_len();
    let mut i = from;
    loop
        invariant
            from <= i,
            n == s@.len(),
            find_double_star(s@, from as int) == find_double_star(s@, i as int),
        decreases n - i,
    {
        if n < 1 || i >= n - 1 {
            assert(find_double_star(s@, i as int) is None);
            return None;
        }
        if s.get_char(i) == '*' && s.get_char(i + 1) == '*' {
            assert(find_double_star(s@, i as int) == Some(i as int));
            return Some(i);
        }
        assert(find_double_star(s@, i as int) == find_double_star(s@, i + 1));
        i = i + 1;
    }
}

/// Exec scan for the leftmost bold span of `s`.
fn scan_bold(s: &str) -> (r: Option<(usize, usize)>)
    ensures
        match r {
            Some(pq) => find_bold(s@, 0) == Some((pq.0 as int, pq.1 as int)),
            None => find_bold(s@, 0) is None,
        },
{
    let n = s.unicode_len();
    let mut i: usize = 0;
    loop
        invariant
            n == s@.len(),
            find_bold(s@, 0) == find_bold(s@, i as int),
        decreases n - i,
    {
        if n < 1 || i >= n - 1 {
            assert(find_bold(s@, i as int) is None);
            return None;
        }
        if s.get_char(i) == '*' && s.get_char(i + 1) == '*' {
            let found = if i + 2 < n {
                scan_double_star(s, i + 3)
            } else {
                None
            };
            proof {
                if i + 2 >= n {
                    assert(find_double_star(s@, i as int + 3) is None);
                }
            }
            match found {
                Some(q) => {
                    assert(find_bold(s@, i as int) == Some((i as int, q as int)));
                    return Some((i, q));
                },
                None => {
                    assert(find_bold(s@, i as int) == find_bold(s@, i + 1));
                },
            }
        } else {
            assert(find_bold(s@, i as int) == find_bold(s@, i + 1));
        }
        i = i + 1;
    }
}

/// Runs the bold stage on `s`.
fn bold_stage(s: &str) -> (out: String)
    ensures
        out@ == bold_rewrite(s@),
    decreases s@.len(),
{
    match scan_bold(s) {
        None => {
            let out = s.to_owned();
            out
        },
        Some((p, q)) => {
            proof {
                lemma_find_bold(s@, 0);
            }
            let n = s.unicode_len();
            let mut out = s.substring_char(0, p).to_owned();
            out.append("<strong>");
            out.append(s.substring_char(p + 2, q));
            out.append("</strong>");
            let rest = s.substring_char(q + 2, n);
            proof {
                assert(rest@.len() < s@.len());
            }
            let tail = bold_stage(rest);
            out.append(tail.as_str());
            proof {
                assert(s@.take(p as int) == s@.subrange(0, p as int));
                assert(out@ =~= bold_rewrite(s@));
            }
            out
        },
    }
}

/// First position at or after `i` holding a `*`.
pub open spec fn find_star(s: Seq<char>, i: int) -> Option<int>
    decreases s.len() - i,
{
    if i < 0 || i >= s.len() {
        None
    } else if s[i] == '*' {
        Some(i)
    } else {
        find_star(s, i + 1)
    }
}

/// The leftmost italic span starting at or after `i`: a `*` at `p` whose
/// closing `*` stands at `q`, the nearest one leaving `s[p+1..q]` non-empty.
pub open spec fn find_italic(s: Seq<char>, i: int) -> Option<(int, int)>
    decreases s.len() - i,
{
    if i < 0 || i >= s.len() {
        None
    } else if s[i] == '*' {
        match find_star(s, i + 2) {
            Some(q) => Some((i, q)),
            None => find_italic(s, i + 1),
        }
    } else {
        find_italic(s, i + 1)
    }
}

proof fn lemma_find_star(s: Seq<char>, i: int)
    ensures
        match find_star(s, i) {
            Some(q) => i <= q && q < s.len() && s[q] == '*',
            None => true,
        },
    decreases s.len() - i,
{
    if i < 0 || i >= s.len() {
    } else if s[i] == '*' {
    } else {
        lemma_find_star(s, i + 1);
    }
}

proof fn lemma_find_italic(s: Seq<char>, i: int)
    ensures
        match find_italic(s, i) {
            Some((p, q)) => i <= p && p < s.len() && s[p] == '*' && p + 2 <= q && q < s.len()
                && s[q] == '*',
            None => true,
        },
    decreases s.len() - i,
{
    if i < 0 || i >= s.len() {
    } else if s[i] == '*' {
        lemma_find_star(s, i + 2);
        if find_star(s, i + 2) is None {
            lemma_find_italic(s, i + 1);
        }
    } else {
        lemma_find_italic(s, i + 1);
    }
}

/// The italic stage: repeatedly replaces the leftmost `*…*` span (non-empty
/// inner text, nearest closing marker) by `<i>…</i>`; it runs after the bold
/// stage, so completed bold spans no longer hold any `*`.
pub open spec fn italic_rewrite(s: Seq<char>) -> Seq<char>
    decreases s.len(),
{
    match find_italic(s, 0) {
        None => s,
        Some((p, q)) => {
            if 0 <= p && p + 2 <= q && q + 1 <= s.len() {
                s.take(p) + "<i>"@ + s.subrange(p + 1, q) + "</i>"@ + italic_rewrite(
                    s.skip(q + 1),
                )
            } else {
                s
            }
        },
    }
}

/// Exec scan for the first `*` at or after `from`.
fn scan_star(s: &str, from: usize) -> (r: Option<usize>)
    ensures
        match r {
            Some(q) => find_star(s@, from as int) == Some(q as int),
            None => find_star(s@, from as int) is None,
        },
{
    let n = s.unicode_len();
    let mut i = from;
    loop
        invariant
            from <= i,
            n == s@.len(),
            find_star(s@, from as int) == find_star(s@, i as int),
        decreases n - i,
    {
        if i >= n {
            assert(find_star(s@, i as int) is None);
            return None;
        }
        if s.get_char(i) == '*' {
            assert(find_star(s@, i as int) == Some(i as int));
            return Some(i);
        }
        assert(find_star(s@, i as int) == find_star(s@, i + 1));
        i = i + 1;
    }
}

/// Exec scan for the leftmost italic span of `s`.
fn scan_italic(s: &str) -> (r: Option<(usize, usize)>)
    ensures
        match r {
            Some(pq) => find_italic(s@, 0) == Some((pq.0 as int, pq.1 as int)),
            None => find_italic(s@, 0) is None,
        },
{
    let n = s.unicode_len();
    let mut i: usize = 0;
    loop
        invariant
            n == s@.len(),
            find_italic(s@, 0) == find_italic(s@, i as int),
        decreases n - i,
    {
        if i >= n {
            assert(find_italic(s@, i as int) is None);
            return None;
        }
        if s.get_char(i) == '*' {
            let found = if i + 1 < n {
                scan_star(s, i + 2)
            } else {
                None
            };
            proof {
                if i + 1 >= n {
                    assert(find_star(s@, i as int + 2) is None);
                }
            }
            match found {
                Some(q) => {
                    assert(find_italic(s@, i as int) == Some((i as int, q as int)));
                    return Some((i, q));
                },
                None => {
                    assert(find_italic(s@, i as int) == find_italic(s@, i + 1));
                },
            }
        } else {
            assert(find_italic(s@, i as int) == find_italic(s@, i + 1));
        }
        i = i + 1;
    }
}

/// Runs the italic stage on `s`.
fn italic_stage(s: &str) -> (out: String)
    ensures
        out@ == italic_rewrite(s@),
    decreases s@.len(),
{
    match scan_italic(s) {
        None => {
            let out = s.to_owned();
            out
        },
        Some((p, q)) => {
            proof {
                lemma_find_italic(s@, 0);
            }
            let n = s.unicode_len();
            let mut out = s.substring_char(0, p).to_owned();
            out.append("<i>");
            out.append(s.substring_char(p + 1, q));
            out.append("</i>");
            let rest = s.substring_char(q + 1, n);
            proof {
                assert(rest@.len() < s@.len());
            }
            let tail = italic_stage(rest);
            out.append(tail.as_str());
            proof {
                assert(s@.take(p as int) == s@.subrange(0, p as int));
                assert(out@ =~= italic_rewrite(s@));
            }
            out
        },
    }
}

/// The closing `]` of a link's text part read from position `j`. The text
/// may hold bracket pairs one level deep: `nested` says whether the scan
/// stands inside such a pair. A second `[` inside a pair, or running out of
/// characters, means no well-formed text part.
pub open spec fn link_text_end(s: Seq<char>, j: int, nested: bool) -> Option<int>
    decreases s.len() - j,
{
    if j < 0 || j >= s.len() {
        None
    } else if s[j] == ']' {
        if nested {
            link_text_end(s, j + 1, false)
        } else {
            Some(j)
        }
    } else if s[j] == '[' {
        if nested {
            None
        } else {
            link_text_end(s, j + 1, true)
        }
    } else {
        link_text_end(s, j + 1, nested)
    }
}

/// The closing `)` of a link's URL part read from position `j`: the first
/// parenthesis at or after `j`, which must be a `)` — a URL holds none.
pub open spec fn link_url_end(s: Seq<char>, j: int) -> Option<int>
    decreases s.len() - j,
{
    if j < 0 || j >= s.len() {
        None
    } else if s[j] == ')' {
        Some(j)
    } else if s[j] == '(' {
        None
    } else {
        link_url_end(s, j + 1)
    }
}

/// The `[text](url)` span starting exactly at `p`, if any, as `(e, f)`: the
/// text is `s[p+1..e]` and the URL is `s[e+2..f]`.
pub open spec fn link_match_at(s: Seq<char>, p: int) -> Option<(int, int)> {
    if 0 <= p < s.len() && s[p] == '[' {
        match link_text_end(s, p + 1, false) {
            Some(e) => if e + 1 < s.len() && s[e + 1] == '(' {
                match link_url_end(s, e + 2) {
                    Some(f) => Some((e, f)),
                    None => None,
                }
            } else {
                None
            },
            None => None,
        }
    } else {
        None
    }
}

/// The leftmost complete `[text](url)` span starting at or after `i`.
pub open spec fn find_link(s: Seq<char>, i: int) -> Option<(int, int, int)>
    decreases s.len() - i,
{
    if i < 0 || i >= s.len() {
        None
    } else {
        match link_match_at(s, i) {
            Some((e, f)) => Some((i, e, f)),
            None => find_link(s, i + 1),
        }
    }
}

proof fn lemma_link_text_end(s: Seq<char>, j: int, nested: bool)
    ensures
        match link_text_end(s, j, nested) {
            Some(e) => j <= e && e < s.len() && s[e] == ']',
            None => true,
        },
    decreases s.len() - j,
{
    if j < 0 || j >= s.len() {
    } else if s[j] == ']' {
        if nested {
            lemma_link_text_end(s, j + 1, false);
        }
    } else if s[j] == '[' {
        if !nested {
            lemma_link_text_end(s, j + 1, true);
        }
    } else {
        lemma_link_text_end(s, j + 1, nested);
    }
}

proof fn lemma_link_url_end(s: Seq<char>, j: int)
    ensures
        match link_url_end(s, j) {
            Some(f) => j <= f && f < s.len() && s[f] == ')',
            None => true,
        },
    decreases s.len() - j,
{
    if 0 <= j < s.len() && s[j] != ')' && s[j] != '(' {
        lemma_link_url_end(s, j + 1);
    }
}

proof fn lemma_find_link(s: Seq<char>, i: int)
    ensures
        match find_link(s, i) {
            Some((p, e, f)) => i <= p && p < s.len() && s[p] == '[' && p + 1 <= e && e + 1
                < s.len() && s[e] == ']' && s[e + 1] == '(' && e + 2 <= f && f < s.len() && s[f]
                == ')',
            None => true,
        },
    decreases s.len() - i,
{
    if i < 0 || i >= s.len() {
    } else {
        match link_match_at(s, i) {
            Some((e, f)) => {
                lemma_link_text_end(s, i + 1, false);
                lemma_link_url_end(s, e + 2);
            },
            None => {
                lemma_find_link(s, i + 1);
            },
        }
    }
}

/// The link stage: repeatedly replaces the leftmost `[text](url)` span by
/// `<a href="url">text</a>`, the text and URL carried over verbatim.
pub open spec fn link_rewrite(s: Seq<char>) -> Seq<char>
    decreases s.len(),
{
    match find_link(s, 0) {
        None => s,
        Some((p, e, f)) => {
            if 0 <= p && p + 1 <= e && e + 2 <= f && f + 1 <= s.len() {
                s.take(p) + "<a href=\""@ + s.subrange(e + 2, f) + "\">"@ + s.subrange(p + 1, e)
                    + "</a>"@ + link_rewrite(s.skip(f + 1))
            } else {
                s
            }
        },
    }
}

/// Exec scan for the closing `]` of a link text part.
fn scan_link_text_end(s: &str, from: usize) -> (r: Option<usize>)
    ensures
        match r {
            Some(e) => link_text_end(s@, from as int, false) == Some(e as int),
            None => link_text_end(s@, from as int, false) is None,
        },
{
    let n = s.unicode_len();
    let mut j = from;
    let mut nested = false;
    loop
        invariant
            from <= j,
            n == s@.len(),
            link_text_end(s@, from as int, false) == link_text_end(s@, j as int, nested),
        decreases n - j,
    {
        if j >= n {
            assert(link_text_end(s@, j as int, nested) is None);
            return None;
        }
        let c = s.get_char(j);
        if c == ']' {
            if nested {
                assert(link_text_end(s@, j as int, nested) == link_text_end(s@, j + 1, false));
                nested = false;
            } else {
                assert(link_text_end(s@, j as int, nested) == Some(j as int));
                return Some(j);
            }
        } else if c == '[' {
            if nested {
                assert(link_text_end(s@, j as int, nested) is None);
                return None;
            } else {
                assert(link_text_end(s@, j as int, nested) == link_text_end(s@, j + 1, true));
                nested = true;
            }
        } else {
            assert(link_text_end(s@, j as int, nested) == link_text_end(s@, j + 1, nested));
        }
        j = j + 1;
    }
}

/// Exec scan for the closing `)` of a link URL part.
fn scan_link_url_end(s: &str, from: usize) -> (r: Option<usize>)
    ensures
        match r {
            Some(f) => link_url_end(s@, from as int) == Some(f as int),
            None => link_url_end(s@, from as int) is None,
        },
{
    let n = s.unicode_len();
    let mut j = from;
    loop
        invariant
            from <= j,
            n == s@.len(),
            link_url_end(s@, from as int) == link_url_end(s@, j as int),
        decreases n - j,
    {
        if j >= n {
            assert(link_url_end(s@, j as int) is None);
            return None;
        }
        let c = s.get_char(j);
        if c == ')' {
            assert(link_url_end(s@, j as int) == Some(j as int));
            return Some(j);
        }
        if c == '(' {
            assert(link_url_end(s@, j as int) is None);
            return None;
        }
        assert(link_url_end(s@, j as int) == link_url_end(s@, j + 1));
        j = j + 1;
    }
}

/// Exec scan for the leftmost complete link span of `s`.
fn scan_link(s: &str) -> (r: Option<(usize, usize, usize)>)
    ensures
        match r {
            Some(pef) => find_link(s@, 0) == Some((pef.0 as int, pef.1 as int, pef.2 as int)),
            None => find_link(s@, 0) is None,
        },
{
    let n = s.unicode_len();
    let mut i: usize = 0;
    loop
        invariant
            n == s@.len(),
            find_link(s@, 0) == find_link(s@, i as int),
        decreases n - i,
    {
        if i >= n {
            assert(find_link(s@, i as int) is None);
            return None;
        }
        if s.get_char(i) == '[' {
            match scan_link_text_end(s, i + 1) {
                Some(e) => {
                    proof {
                        lemma_link_text_end(s@, i as int + 1, false);
                    }
                    if e + 1 < n && s.get_char(e + 1) == '(' {
                        match scan_link_url_end(s, e + 2) {
                            Some(f) => {
                                assert(link_match_at(s@, i as int) == Some((e as int, f as int)));
                                assert(find_link(s@, i as int) == Some(
                                    (i as int, e as int, f as int),
                                ));
                                return Some((i, e, f));
                            },
                            None => {
                                assert(link_match_at(s@, i as int) is None);
                                assert(find_link(s@, i as int) == find_link(s@, i + 1));
                            },
                        }
                    } else {
                        assert(link_match_at(s@, i as int) is None);
                        assert(find_link(s@, i as int) == find_link(s@, i + 1));
                    }
                },
                None => {
                    assert(link_match_at(s@, i as int) is None);
                    assert(find_link(s@, i as int) == find_link(s@, i + 1));
                },
            }
        } else {
            assert(link_match_at(s@, i as int) is None);
            assert(find_link(s@, i as int) == find_link(s@, i + 1));
        }
        i = i + 1;
    }
}

/// Runs the link stage on `s`.
fn link_stage(s: &str) -> (out: String)
    ensures
        out@ == link_rewrite(s@),
    decreases s@.len(),
{
    match scan_link(s) {
        None => {
            let out = s.to_owned();
            out
        },
        Some((p, e, f)) => {
            proof {
                lemma_find_link(s@, 0);
            }
            let n = s.unicode_len();
            let mut out = s.substring_char(0, p).to_owned();
            out.append("<a href=\"");
            out.append(s.substring_char(e + 2, f));
            out.append("\">");
            out.append(s.substring_char(p + 1, e));
            out.append("</a>");
            let rest = s.substring_char(f + 1, n);
            proof {
                assert(rest@.len() < s@.len());
            }
            let tail = link_stage(rest);
            out.append(tail.as_str());
            proof {
                assert(s@.take(p as int) == s@.subrange(0, p as int));
                assert(out@ =~= link_rewrite(s@));
            }
            out
        },
    }
}

/// First position at or after `i` holding a backtick.
pub open spec fn find_tick(s: Seq<char>, i: int) -> Option<int>
    decreases s.len() - i,
{
    if i < 0 || i >= s.len() {
        None
    } else if s[i] == '`' {
        Some(i)
    } else {
        find_tick(s, i + 1)
    }
}

proof fn lemma_find_tick(s: Seq<char>, i: int)
    ensures
        match find_tick(s, i) {
            Some(q) => i <= q && q < s.len() && s[q] == '`',
            None => true,
        },
    decreases s.len() - i,
{
    if 0 <= i < s.len() && s[i] != '`' {
        lemma_find_tick(s, i + 1);
    }
}

/// The inline-code stage. At most one span per line is converted: the span
/// runs from the first backtick run to the next one. When the two runs
/// differ in length the difference is reconciled by moving the excess
/// backticks into the code content — excess opening backticks are prepended,
/// excess closing backticks appended. A line with fewer than two backtick
/// runs, whose only span would be empty, is left as it stands.
pub open spec fn code_rewrite(s: Seq<char>) -> Seq<char> {
    match find_tick(s, 0) {
        None => s,
        Some(b1) => {
            let e1 = run_end(s, b1, '`');
            match find_tick(s, e1) {
                None => s,
                Some(b2) => {
                    let e2 = run_end(s, b2, '`');
                    if 0 <= b1 && b1 < e1 && e1 < b2 && b2 < e2 && e2 <= s.len() {
                        let r1 = e1 - b1;
                        let r2 = e2 - b2;
                        let lead = if r1 > r2 {
                            s.subrange(b1, b1 + (r1 - r2))
                        } else {
                            Seq::<char>::empty()
                        };
                        let excess = if r1 < r2 {
                            s.subrange(b2, b2 + (r2 - r1))
                        } else {
                            Seq::<char>::empty()
                        };
                        s.take(b1) + "<code>"@ + lead + s.subrange(e1, b2) + excess + "</code>"@
                            + s.skip(e2)
                    } else {
                        s
                    }
                },
            }
        },
    }
}

/// Exec scan for the first backtick at or after `from`.
fn scan_tick(s: &str, from: usize) -> (r: Option<usize>)
    ensures
        match r {
            Some(q) => find_tick(s@, from as int) == Some(q as int),
            None => find_tick(s@, from as int) is None,
        },
{
    let n = s.unicode_len();
    let mut i = from;
    loop
        invariant
            from <= i,
            n == s@.len(),
            find_tick(s@, from as int) == find_tick(s@, i as int),
        decreases n - i,
    {
        if i >= n {
            assert(find_tick(s@, i as int) is None);
            return None;
        }
        if s.get_char(i) == '`' {
            assert(find_tick(s@, i as int) == Some(i as int));
            return Some(i);
        }
        assert(find_tick(s@, i as int) == find_tick(s@, i + 1));
        i = i + 1;
    }
}

/// Runs the inline-code stage on `s`.
fn code_stage(s: &str) -> (out: String)
    ensures
        out@ == code_rewrite(s@),
{
    let n = s.unicode_len();
    match scan_tick(s, 0) {
        None => {
            let out = s.to_owned();
            out
        },
        Some(b1) => {
            proof {
                lemma_find_tick(s@, 0);
            }
            let e1 = scan_run(s, b1, '`');
            proof {
                lemma_run_end(s@, b1 as int, '`');
                assert(run_end(s@, b1 as int, '`') == run_end(s@, b1 as int + 1, '`'));
                lemma_run_end(s@, b1 as int + 1, '`');
            }
            match scan_tick(s, e1) {
                None => {
                    let out = s.to_owned();
                    out
                },
                Some(b2) => {
                    proof {
                        lemma_find_tick(s@, e1 as int);
                        lemma_run_end(s@, b2 as int, '`');
                        assert(run_end(s@, b2 as int, '`') == run_end(s@, b2 as int + 1, '`'));
                        lemma_run_end(s@, b2 as int + 1, '`');
                    }
                    let e2 = scan_run(s, b2, '`');
                    let r1 = e1 - b1;
                    let r2 = e2 - b2;
                    let mut out = s.substring_char(0, b1).to_owned();
                    out.append("<code>");
                    if r1 > r2 {
                        out.append(s.substring_char(b1, b1 + (r1 - r2)));
                    }
                    out.append(s.substring_char(e1, b2));
                    if r1 < r2 {
                        out.append(s.substring_char(b2, b2 + (r2 - r1)));
                    }
                    out.append("</code>");
                    out.append(s.substring_char(e2, n));
                    proof {
                        assert(s@.take(b1 as int) == s@.subrange(0, b1 as int));
                        assert(out@ =~= code_rewrite(s@));
                    }
                    out
                },
            }
        },
    }
}

/// The whole inline transform: the bold, italic, link and inline-code
/// stages, in that order, each reading the previous stage's output.
pub open spec fn transform_spec(s: Seq<char>) -> Seq<char> {
    code_rewrite(link_rewrite(italic_rewrite(bold_rewrite(s))))
}

/// The bold stage keeps the line's leading `"> "` quote markers: a bold span
/// starts with `*`, so every rewrite happens past them.
proof fn lemma_bold_depth(s: Seq<char>)
    ensures
        quote_depth(bold_rewrite(s)) == quote_depth(s),
{
    lemma_find_bold(s, 0);
    match find_bold(s, 0) {
        None => {},
        Some((p, q)) => {
            let x = "<strong>"@ + s.subrange(p + 2, q) + "</strong>"@ + bold_rewrite(
                s.skip(q + 2),
            );
            reveal_strlit("<strong>");
            assert(x.len() > 0 && x[0] == '<');
            assert(bold_rewrite(s) =~= s.take(p) + x);
            lemma_quote_depth_replace(s, p, x);
        },
    }
}

/// The italic stage keeps the leading quote markers, as the bold stage does.
proof fn lemma_italic_depth(s: Seq<char>)
    ensures
        quote_depth(italic_rewrite(s)) == quote_depth(s),
{
    lemma_find_italic(s, 0);
    match find_italic(s, 0) {
        None => {},
        Some((p, q)) => {
            let x = "<i>"@ + s.subrange(p + 1, q) + "</i>"@ + italic_rewrite(s.skip(q + 1));
            reveal_strlit("<i>");
            assert(x.len() > 0 && x[0] == '<');
            assert(italic_rewrite(s) =~= s.take(p) + x);
            lemma_quote_depth_replace(s, p, x);
        },
    }
}

/// The link stage keeps the leading quote markers: a link span starts with
/// `[`.
proof fn lemma_link_depth(s: Seq<char>)
    ensures
        quote_depth(link_rewrite(s)) == quote_depth(s),
{
    lemma_find_link(s, 0);
    match find_link(s, 0) {
        None => {},
        Some((p, e, f)) => {
            let x = "<a href=\""@ + s.subrange(e + 2, f) + "\">"@ + s.subrange(p + 1, e)
                + "</a>"@ + link_rewrite(s.skip(f + 1));
            reveal_strlit("<a href=\"");
            assert(x.len() > 0 && x[0] == '<');
            assert(link_rewrite(s) =~= s.take(p) + x);
            lemma_quote_depth_replace(s, p, x);
        },
    }
}

/// The inline-code stage keeps the leading quote markers: a code span starts
/// with a backtick.
proof fn lemma_code_depth(s: Seq<char>)
    ensures
        quote_depth(code_rewrite(s)) == quote_depth(s),
{
    lemma_find_tick(s, 0);
    match find_tick(s, 0) {
        None => {},
        Some(b1) => {
            let e1 = run_end(s, b1, '`');
            lemma_run_end(s, b1, '`');
            match find_tick(s, e1) {
                None => {},
                Some(b2) => {
                    lemma_find_tick(s, e1);
                    let e2 = run_end(s, b2, '`');
                    lemma_run_end(s, b2, '`');
                    if 0 <= b1 && b1 < e1 && e1 < b2 && b2 < e2 && e2 <= s.len() {
                        let r1 = e1 - b1;
                        let r2 = e2 - b2;
                        let lead = if r1 > r2 {
                            s.subrange(b1, b1 + (r1 - r2))
                        } else {
                            Seq::<char>::empty()
                        };
                        let excess = if r1 < r2 {
                            s.subrange(b2, b2 + (r2 - r1))
                        } else {
                            Seq::<char>::empty()
                        };
                        let x = "<code>"@ + lead + s.subrange(e1, b2) + excess + "</code>"@
                            + s.skip(e2);
                        reveal_strlit("<code>");
                        assert(x.len() > 0 && x[0] == '<');
                        assert(code_rewrite(s) =~= s.take(b1) + x);
                        lemma_quote_depth_replace(s, b1, x);
                    }
                },
            }
        },
    }
}

/// The inline transform never touches a line's leading `"> "` quote
/// markers: the block-quote depth survives every stage.
pub proof fn lemma_transform_depth(s: Seq<char>)
    ensures
        quote_depth(transform_spec(s)) == quote_depth(s),
{
    let b = bold_rewrite(s);
    let it = italic_rewrite(b);
    let l = link_rewrite(it);
    lemma_bold_depth(s);
    lemma_italic_depth(b);
    lemma_link_depth(it);
    lemma_code_depth(l);
}

/// Law: the inline transform is the identity on any line holding none of
/// the three span-opening characters `*`, `[` and backtick — text without
/// inline markup passes through unchanged.
pub proof fn lemma_transform_identity(s: Seq<char>)
    requires
        (forall|i: int| 0 <= i < s.len() ==> s[i] != '*' && s[i] != '[' && s[i] != '`'),
    ensures
        transform_spec(s) == s,
{
    lemma_find_bold(s, 0);
    assert(find_bold(s, 0) is None);
    assert(bold_rewrite(s) == s);
    lemma_find_italic(s, 0);
    assert(find_italic(s, 0) is None);
    assert(italic_rewrite(s) == s);
    lemma_find_link(s, 0);
    assert(find_link(s, 0) is None);
    assert(link_rewrite(s) == s);
    lemma_find_tick(s, 0);
    assert(find_tick(s, 0) is None);
    assert(code_rewrite(s) == s);
}

/// Law: a line on which no stage finds a complete span — no closed bold
/// pair, no closed italic pair, no complete link, and no second backtick
/// run — passes through the whole transform unchanged: unterminated markup
/// stays literal text.
pub proof fn lemma_unterminated_spans_unchanged(s: Seq<char>)
    requires
        (find_bold(s, 0) is None),
        (find_italic(s, 0) is None),
        (find_link(s, 0) is None),
        (match find_tick(s, 0) {
            None => true,
            Some(b1) => find_tick(s, run_end(s, b1, '`')) is None,
        }),
    ensures
        transform_spec(s) == s,
{
    assert(bold_rewrite(s) == s);
    assert(italic_rewrite(s) == s);
    assert(link_rewrite(s) == s);
    assert(code_rewrite(s) == s);
}

/// A run of `n` backticks.
pub open spec fn ticks(n: nat) -> Seq<char> {
    Seq::new(n, |i: int| '`')
}

proof fn lemma_find_tick_at(s: Seq<char>, i: int, k: int)
    requires
        0 <= i <= k < s.len(),
        s[k] == '`',
        (forall|j: int| i <= j < k ==> s[j] != '`'),
    ensures
        find_tick(s, i) == Some(k),
    decreases k - i,
{
    if i < k {
        lemma_find_tick_at(s, i + 1, k);
    }
}

proof fn lemma_run_end_at(s: Seq<char>, i: int, e: int)
    requires
        0 <= i <= e <= s.len(),
        (forall|j: int| i <= j < e ==> s[j] == '`'),
        e < s.len() ==> s[e] != '`',
    ensures
        run_end(s, i, '`') == e,
    decreases e - i,
{
    if i < e {
        lemma_run_end_at(s, i + 1, e);
    }
}

/// Law: asymmetric backtick reconciliation. Take a line
/// `pre ⟨r1 backticks⟩ mid ⟨r2 backticks⟩ post` whose `pre` and `mid` hold
/// no backticks, whose `mid` is non-empty, and whose `post` does not start
/// with one. The inline-code stage wraps `mid` in `<code>…</code>`, and a
/// length difference between the two runs is reconciled by moving the
/// excess into the code content: excess opening backticks are prepended,
/// excess closing backticks appended; equal runs add nothing.
pub proof fn lemma_code_asymmetric(
    pre: Seq<char>,
    r1: nat,
    mid: Seq<char>,
    r2: nat,
    post: Seq<char>,
)
    requires
        r1 >= 1,
        r2 >= 1,
        mid.len() >= 1,
        (forall|i: int| 0 <= i < pre.len() ==> pre[i] != '`'),
        (forall|i: int| 0 <= i < mid.len() ==> mid[i] != '`'),
        post.len() > 0 ==> post[0] != '`',
    ensures
        ({
            let s = pre + ticks(r1) + mid + ticks(r2) + post;
            let content = if r1 < r2 {
                mid + ticks((r2 - r1) as nat)
            } else if r2 < r1 {
                ticks((r1 - r2) as nat) + mid
            } else {
                mid
            };
            code_rewrite(s) == pre + "<code>"@ + content + "</code>"@ + post
        }),
{
    let s = pre + ticks(r1) + mid + ticks(r2) + post;
    let b1 = pre.len() as int;
    let e1 = b1 + r1;
    let b2 = e1 + mid.len() as int;
    let e2 = b2 + r2;
    assert(s.len() == e2 + post.len());
    assert forall|j: int| 0 <= j < b1 implies s[j] != '`' by {
        assert(s[j] == pre[j]);
    }
    assert forall|j: int| b1 <= j < e1 implies s[j] == '`' by {
        assert(s[j] == ticks(r1)[j - b1]);
    }
    assert forall|j: int| e1 <= j < b2 implies s[j] != '`' by {
        assert(s[j] == mid[j - e1]);
    }
    assert forall|j: int| b2 <= j < e2 implies s[j] == '`' by {
        assert(s[j] == ticks(r2)[j - b2]);
    }
    if e2 < s.len() {
        assert(s[e2] == post[0]);
    }
    lemma_find_tick_at(s, 0, b1);
    lemma_run_end_at(s, b1, e1);
    lemma_find_tick_at(s, e1, b2);
    lemma_run_end_at(s, b2, e2);
    assert(s.take(b1) =~= pre);
    assert(s.subrange(e1, b2) =~= mid);
    assert(s.skip(e2) =~= post);
    if r1 < r2 {
        assert(s.subrange(b2, b2 + (r2 - r1)) =~= ticks((r2 - r1) as nat));
        assert(code_rewrite(s) =~= pre + "<code>"@ + (mid + ticks((r2 - r1) as nat)) + "</code>"@
            + post);
    } else if r2 < r1 {
        assert(s.subrange(b1, b1 + (r1 - r2)) =~= ticks((r1 - r2) as nat));
        assert(code_rewrite(s) =~= pre + "<code>"@ + (ticks((r1 - r2) as nat) + mid) + "</code>"@
            + post);
    } else {
        assert(code_rewrite(s) =~= pre + "<code>"@ + mid + "</code>"@ + post);
    }
}

/// Rewrites the inline markup of one line to HTML: `**…**` to
/// `<strong>…</strong>`, then `*…*` to `<i>…</i>`, then `[text](url)` to
/// `<a href="url">text</a>`, then one backtick-delimited span to
/// `<code>…</code>`. Markup without a complete span is left as literal
/// text, and the line itself is not changed.
pub fn convert_inline_markdown(line: &mut String) -> (r: String)
    ensures
        r@ == transform_spec(old(line)@),
        final(line)@ == old(line)@,
{
    let a = bold_stage(line.as_str());
    let b = italic_stage(a.as_str());
    let c = link_stage(b.as_str());
    let d = code_stage(c.as_str());
    d
}

} // verus!
