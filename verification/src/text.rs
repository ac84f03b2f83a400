//! Character classes and sequence scans shared by the classifier and the
//! inline transformer: whitespace, digits, character runs, trimming, and the
//! block-quote nesting depth of a line.

use vstd::prelude::*;

verus! {

/// The characters with Unicode's White_Space property: what trimming a line
/// removes, and what may follow the dot of an ordered-list marker.
pub open spec fn is_ws_char(c: char) -> bool {
    ||| c == ' '
    ||| c == '\t'
    ||| c == '\n'
    ||| c == '\r'
    ||| c == '\u{000b}'
    ||| c == '\u{000c}'
    ||| c == '\u{0085}'
    ||| c == '\u{00a0}'
    ||| c == '\u{1680}'
    ||| c == '\u{2000}'
    ||| c == '\u{2001}'
    ||| c == '\u{2002}'
    ||| c == '\u{2003}'
    ||| c == '\u{2004}'
    ||| c == '\u{2005}'
    ||| c == '\u{2006}'
    ||| c == '\u{2007}'
    ||| c == '\u{2008}'
    ||| c == '\u{2009}'
    ||| c == '\u{200a}'
    ||| c == '\u{2028}'
    ||| c == '\u{2029}'
    ||| c == '\u{202f}'
    ||| c == '\u{205f}'
    ||| c == '\u{3000}'
}

/// Executable whitespace test, mirroring `is_ws_char`.
pub fn is_ws(c: char) -> (r: bool)
    ensures
        r == is_ws_char(c),
{
    c == ' ' || c == '\t' || c == '\n' || c == '\r' || c == '\u{000b}' || c == '\u{000c}'
        || c == '\u{0085}' || c == '\u{00a0}' || c == '\u{1680}' || c == '\u{2000}'
        || c == '\u{2001}' || c == '\u{2002}' || c == '\u{2003}' || c == '\u{2004}'
        || c == '\u{2005}' || c == '\u{2006}' || c == '\u{2007}' || c == '\u{2008}'
        || c == '\u{2009}' || c == '\u{200a}' || c == '\u{2028}' || c == '\u{2029}'
        || c == '\u{202f}' || c == '\u{205f}' || c == '\u{3000}'
}

/// The ten decimal digit characters.
pub open spec fn is_digit_char(c: char) -> bool {
    ||| c == '0'
    ||| c == '1'
    ||| c == '2'
    ||| c == '3'
    ||| c == '4'
    ||| c == '5'
    ||| c == '6'
    ||| c == '7'
    ||| c == '8'
    ||| c == '9'
}

/// Executable digit test, mirroring `is_digit_char`.
pub fn is_digit(c: char) -> (r: bool)
    ensures
        r == is_digit_char(c),
{
    c == '0' || c == '1' || c == '2' || c == '3' || c == '4' || c == '5' || c == '6' || c == '7'
        || c == '8' || c == '9'
}

/// First position at or after `i` whose character is not `c`, or the end of
/// `s` if the run of `c` reaches it.
pub open spec fn run_end(s: Seq<char>, i: int, c: char) -> int
    decreases s.len() - i,
{
    if 0 <= i < s.len() && s[i] == c {
        run_end(s, i + 1, c)
    } else {
        i
    }
}

pub proof fn lemma_run_end(s: Seq<char>, i: int, c: char)
    requires
        0 <= i <= s.len(),
    ensures
        i <= run_end(s, i, c) <= s.len(),
        forall|j: int| i <= j < run_end(s, i, c) ==> s[j] == c,
        run_end(s, i, c) < s.len() ==> s[run_end(s, i, c)] != c,
    decreases s.len() - i,
{
    if 0 <= i < s.len() && s[i] == c {
        lemma_run_end(s, i + 1, c);
    }
}

/// First position at or after `i` holding a non-digit, or the end of `s`.
pub open spec fn digit_run_end(s: Seq<char>, i: int) -> int
    decreases s.len() - i,
{
    if 0 <= i < s.len() && is_digit_char(s[i]) {
        digit_run_end(s, i + 1)
    } else {
        i
    }
}

pub proof fn lemma_digit_run_end(s: Seq<char>, i: int)
    requires
        0 <= i <= s.len(),
    ensures
        i <= digit_run_end(s, i) <= s.len(),
        forall|j: int| i <= j < digit_run_end(s, i) ==> is_digit_char(s[j]),
        digit_run_end(s, i) < s.len() ==> !is_digit_char(s[digit_run_end(s, i)]),
    decreases s.len() - i,
{
    if 0 <= i < s.len() && is_digit_char(s[i]) {
        lemma_digit_run_end(s, i + 1);
    }
}

/// First position at or after `i` holding a non-whitespace character, or the
/// end of `s`.
pub open spec fn ws_run_end(s: Seq<char>, i: int) -> int
    decreases s.len() - i,
{
    if 0 <= i < s.len() && is_ws_char(s[i]) {
        ws_run_end(s, i + 1)
    } else {
        i
    }
}

pub proof fn lemma_ws_run_end(s: Seq<char>, i: int)
    requires
        0 <= i <= s.len(),
    ensures
        i <= ws_run_end(s, i) <= s.len(),
        forall|j: int| i <= j < ws_run_end(s, i) ==> is_ws_char(s[j]),
        ws_run_end(s, i) < s.len() ==> !is_ws_char(s[ws_run_end(s, i)]),
    decreases s.len() - i,
{
    if 0 <= i < s.len() && is_ws_char(s[i]) {
        lemma_ws_run_end(s, i + 1);
    }
}

/// Exec scan for the end of the run of `c` starting at `from`.
pub fn scan_run(s: &str, from: usize, c: char) -> (r: usize)
    requires
        from <= s@.len(),
    ensures
        r as int == run_end(s@, from as int, c),
        from <= r <= s@.len(),
{
    let n = s.unicode_len();
    let mut i = from;
    while i < n && s.get_char(i) == c
        invariant
            from <= i <= n,
            n == s@.len(),
            run_end(s@, from as int, c) == run_end(s@, i as int, c),
        decreases n - i,
    {
        assert(run_end(s@, i as int, c) == run_end(s@, i + 1, c));
        i = i + 1;
    }
    assert(run_end(s@, i as int, c) == i as int);
    i
}

/// Exec scan for the end of the digit run at the head of `s`.
pub fn scan_digit_run(s: &str) -> (r: usize)
    ensures
        r as int == digit_run_end(s@, 0),
        r <= s@.len(),
{
    let n = s.unicode_len();
    let mut i: usize = 0;
    while i < n && is_digit(s.get_char(i))
        invariant
            0 <= i <= n,
            n == s@.len(),
            digit_run_end(s@, 0) == digit_run_end(s@, i as int),
        decreases n - i,
    {
        assert(digit_run_end(s@, i as int) == digit_run_end(s@, i + 1));
        i = i + 1;
    }
    assert(digit_run_end(s@, i as int) == i as int);
    i
}

/// Index of the first non-whitespace character of `s` (the length if none).
pub open spec fn trim_start(s: Seq<char>) -> int {
    ws_run_end(s, 0)
}

/// One past the last non-whitespace character of `s.take(j)` (0 if none).
pub open spec fn trim_end(s: Seq<char>, j: int) -> int
    decreases j,
{
    if 0 < j <= s.len() && is_ws_char(s[j - 1]) {
        trim_end(s, j - 1)
    } else {
        j
    }
}

pub proof fn lemma_trim_end(s: Seq<char>, j: int)
    requires
        0 <= j <= s.len(),
    ensures
        0 <= trim_end(s, j) <= j,
        forall|k: int| trim_end(s, j) <= k < j ==> is_ws_char(s[k]),
        trim_end(s, j) > 0 ==> !is_ws_char(s[trim_end(s, j) - 1]),
    decreases j,
{
    if 0 < j <= s.len() && is_ws_char(s[j - 1]) {
        lemma_trim_end(s, j - 1);
    }
}

/// `s` with leading and trailing whitespace removed, as `str::trim` does.
pub open spec fn trim_spec(s: Seq<char>) -> Seq<char> {
    let a = trim_start(s);
    let b = trim_end(s, s.len() as int);
    if a <= b {
        s.subrange(a, b)
    } else {
        Seq::empty()
    }
}

/// The bounds of the trimmed middle of `s`: first non-whitespace index, and
/// one past the last non-whitespace index.
pub fn trim_bounds(s: &str) -> (r: (usize, usize))
    ensures
        r.0 as int == trim_start(s@),
        r.1 as int == trim_end(s@, s@.len() as int),
{
    let n = s.unicode_len();
    let mut a: usize = 0;
    while a < n && is_ws(s.get_char(a))
        invariant
            0 <= a <= n,
            n == s@.len(),
            ws_run_end(s@, 0) == ws_run_end(s@, a as int),
        decreases n - a,
    {
        assert(ws_run_end(s@, a as int) == ws_run_end(s@, a + 1));
        a = a + 1;
    }
    assert(ws_run_end(s@, a as int) == a as int);
    let mut b: usize = n;
    while b > 0 && is_ws(s.get_char(b - 1))
        invariant
            0 <= b <= n,
            n == s@.len(),
            trim_end(s@, n as int) == trim_end(s@, b as int),
        decreases b,
    {
        assert(trim_end(s@, b as int) == trim_end(s@, b - 1));
        b = b - 1;
    }
    assert(trim_end(s@, b as int) == b as int);
    (a, b)
}

/// A line that is blank after trimming is exactly one whose trimmed start
/// reaches its end.
pub proof fn lemma_blank_iff_trim_start_at_end(s: Seq<char>)
    ensures
        trim_spec(s).len() == 0 <==> trim_start(s) == s.len(),
{
    lemma_ws_run_end(s, 0);
    lemma_trim_end(s, s.len() as int);
    let a = trim_start(s);
    let b = trim_end(s, s.len() as int);
    if a == s.len() {
        if b > a {
            assert(is_ws_char(s[b - 1]));
            assert(!is_ws_char(s[b - 1]));
        }
        if 0 < b <= a {
            assert(is_ws_char(s[b - 1]));
            assert(!is_ws_char(s[b - 1]));
        }
    } else {
        assert(!is_ws_char(s[a]));
        if b <= a {
            assert(is_ws_char(s[a]));
        }
    }
}

/// The number of `"> "` block-quote markers heading the line.
pub open spec fn quote_depth(s: Seq<char>) -> nat
    decreases s.len(),
{
    if s.len() >= 2 && s[0] == '>' && s[1] == ' ' {
        (1 + quote_depth(s.skip(2))) as nat
    } else {
        0
    }
}

/// Replacing everything from position `p` on by text that opens with `<`
/// leaves the quote depth unchanged, provided the character at `p` was
/// neither `>` nor a space: the `"> "` markers lie wholly before `p`, and the
/// `<` cannot extend them.
pub proof fn lemma_quote_depth_replace(s: Seq<char>, p: int, x: Seq<char>)
    requires
        0 <= p < s.len(),
        s[p] != '>',
        s[p] != ' ',
        x.len() > 0,
        x[0] == '<',
    ensures
        quote_depth(s.take(p) + x) == quote_depth(s),
    decreases p,
{
    let t = s.take(p) + x;
    if p == 0 {
        assert(t =~= x);
        assert(t[0] == '<');
        assert(quote_depth(t) == 0);
        assert(quote_depth(s) == 0);
    } else if p == 1 {
        assert(t[1] == x[0]);
        assert(quote_depth(t) == 0);
        assert(quote_depth(s) == 0);
    } else {
        assert(t[0] == s[0]);
        assert(t[1] == s[1]);
        if s.len() >= 2 && s[0] == '>' && s[1] == ' ' {
            assert(t.skip(2) =~= s.skip(2).take(p - 2) + x);
            assert(s.skip(2)[p - 2] == s[p]);
            lemma_quote_depth_replace(s.skip(2), p - 2, x);
            assert(quote_depth(t) == 1 + quote_depth(t.skip(2)));
            assert(quote_depth(s) == 1 + quote_depth(s.skip(2)));
        } else {
            assert(quote_depth(t) == 0);
            assert(quote_depth(s) == 0);
        }
    }
}

} // verus!
