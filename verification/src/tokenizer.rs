//! The tokenizer: one pass over the source text. Runs of whitespace and
//! commas are skipped; then, in priority order, the two-character token `~@`,
//! a single special character, a string literal (an unterminated one is still
//! emitted), a line comment (discarded), or a maximal run of plain atom
//! characters.

use vstd::prelude::*;
use vstd::string::StrSliceExecFns;

verus! {

/// Separators: whitespace and commas, discarded between tokens.
pub open spec fn is_sep_v(c: char) -> bool {
    ||| c == ' '
    ||| c == '\t'
    ||| c == '\n'
    ||| c == '\r'
    ||| c == '\u{B}'
    ||| c == '\u{C}'
    ||| c == ','
    ||| c == '\u{85}'
    ||| c == '\u{A0}'
    ||| c == '\u{1680}'
    ||| ('\u{2000}' <= c && c <= '\u{200A}')
    ||| c == '\u{2028}'
    ||| c == '\u{2029}'
    ||| c == '\u{202F}'
    ||| c == '\u{205F}'
    ||| c == '\u{3000}'
}

#[verifier::when_used_as_spec(is_sep_v)]
pub fn is_sep(c: char) -> (r: bool)
    ensures
        r == is_sep_v(c),
{
    c == ' ' || c == '\t' || c == '\n' || c == '\r' || c == '\u{B}' || c == '\u{C}' || c == ','
        || c == '\u{85}' || c == '\u{A0}' || c == '\u{1680}' || ('\u{2000}' <= c && c
        <= '\u{200A}') || c == '\u{2028}' || c == '\u{2029}' || c == '\u{202F}' || c == '\u{205F}'
        || c == '\u{3000}'
}

/// The single-character special tokens.
pub open spec fn is_special_v(c: char) -> bool {
    ||| c == '['
    ||| c == ']'
    ||| c == '{'
    ||| c == '}'
    ||| c == '('
    ||| c == ')'
    ||| c == '\''
    ||| c == '`'
    ||| c == '~'
    ||| c == '^'
    ||| c == '@'
}

#[verifier::when_used_as_spec(is_special_v)]
pub fn is_special(c: char) -> (r: bool)
    ensures
        r == is_special_v(c),
{
    c == '[' || c == ']' || c == '{' || c == '}' || c == '(' || c == ')' || c == '\'' || c == '`'
        || c == '~' || c == '^' || c == '@'
}

/// The characters that end a run of plain atom characters. `~`, `^` and `@`
/// do not break an atom that has already begun.
pub open spec fn is_atom_break_v(c: char) -> bool {
    ||| is_sep_v(c)
    ||| c == '['
    ||| c == ']'
    ||| c == '{'
    ||| c == '}'
    ||| c == '('
    ||| c == ')'
    ||| c == '\''
    ||| c == '"'
    ||| c == '`'
    ||| c == ';'
}

#[verifier::when_used_as_spec(is_atom_break_v)]
pub fn is_atom_break(c: char) -> (r: bool)
    ensures
        r == is_atom_break_v(c),
{
    is_sep(c) || c == '[' || c == ']' || c == '{' || c == '}' || c == '(' || c == ')' || c == '\''
        || c == '"' || c == '`' || c == ';'
}

/// Where a string literal body that begins at `j` (just after the opening
/// quote) ends: past the closing quote if one is reached; at the end of the
/// input, or just before a bare trailing backslash, otherwise. A backslash
/// escapes the character after it unless that character is a newline.
pub open spec fn string_end(s: Seq<char>, j: int) -> int
    decreases s.len() - j,
{
    if j < 0 || j >= s.len() {
        j
    } else if s[j] == '\\' {
        if j + 1 < s.len() && s[j + 1] != '\n' {
            string_end(s, j + 2)
        } else {
            j
        }
    } else if s[j] == '"' {
        j + 1
    } else {
        string_end(s, j + 1)
    }
}

/// Where a line comment ends: at the next newline or the end of the input.
pub open spec fn comment_end(s: Seq<char>, j: int) -> int
    decreases s.len() - j,
{
    if j < 0 || j >= s.len() || s[j] == '\n' {
        j
    } else {
        comment_end(s, j + 1)
    }
}

/// Where a run of plain atom characters ends.
pub open spec fn atom_end(s: Seq<char>, j: int) -> int
    decreases s.len() - j,
{
    if 0 <= j < s.len() && !is_atom_break_v(s[j]) {
        atom_end(s, j + 1)
    } else {
        j
    }
}

/// Where the token that starts at `i` ends, by the priority order of the
/// grammar. Callers guarantee `s[i]` is not a separator.
pub open spec fn token_end(s: Seq<char>, i: int) -> int {
    if s[i] == '~' && i + 1 < s.len() && s[i + 1] == '@' {
        i + 2
    } else if is_special_v(s[i]) {
        i + 1
    } else if s[i] == '"' {
        string_end(s, i + 1)
    } else if s[i] == ';' {
        comment_end(s, i + 1)
    } else {
        atom_end(s, i + 1)
    }
}

/// `token_end`, clamped into `i < end <= s.len()` so that the scan always
/// advances. The clamp never fires on the values the scanners produce.
pub open spec fn token_end_clamped(s: Seq<char>, i: int) -> int {
    let j = token_end(s, i);
    if j < i + 1 {
        i + 1
    } else if j > s.len() {
        s.len() as int
    } else {
        j
    }
}

/// The token sequence of the source text from position `i` on: separators
/// skipped, comments dropped, every other token kept in order.
pub open spec fn tokenize_v(s: Seq<char>, i: int) -> Seq<Seq<char>>
    decreases s.len() - i,
{
    if i < 0 || i >= s.len() {
        Seq::empty()
    } else if is_sep_v(s[i]) {
        tokenize_v(s, i + 1)
    } else {
        let j = token_end_clamped(s, i);
        if s[i] == ';' {
            tokenize_v(s, j)
        } else {
            seq![s.subrange(i, j)] + tokenize_v(s, j)
        }
    }
}

/// The views of a vector of token strings.
pub open spec fn toks_dv(ts: Seq<String>) -> Seq<Seq<char>> {
    Seq::new(ts.len(), |i: int| ts[i]@)
}

/// Scans a string literal body starting at `from` (just after the opening
/// quote).
#[verifier::loop_isolation(false)]
fn scan_string(s: &str, from: usize, n: usize) -> (r: usize)
    requires
        from <= n,
        n == s@.len(),
    ensures
        r == string_end(s@, from as int),
        from <= r <= n,
    decreases n - from,
{
    if from >= n {
        return from;
    }
    let c = s.get_char(from);
    if c == '\\' {
        if from + 1 < n {
            let c2 = s.get_char(from + 1);
            if c2 != '\n' {
                return scan_string(s, from + 2, n);
            }
        }
        from
    } else if c == '"' {
        from + 1
    } else {
        scan_string(s, from + 1, n)
    }
}

/// Scans to the end of a line comment.
#[verifier::loop_isolation(false)]
fn scan_comment(s: &str, from: usize, n: usize) -> (r: usize)
    requires
        from <= n,
        n == s@.len(),
    ensures
        r == comment_end(s@, from as int),
        from <= r <= n,
{
    let mut j = from;
    while j < n && s.get_char(j) != '\n'
        invariant
            from <= j <= n,
            comment_end(s@, from as int) == comment_end(s@, j as int),
        decreases n - j,
    {
        j = j + 1;
    }
    j
}

/// Scans to the end of a run of plain atom characters.
#[verifier::loop_isolation(false)]
fn scan_atom(s: &str, from: usize, n: usize) -> (r: usize)
    requires
        from <= n,
        n == s@.len(),
    ensures
        r == atom_end(s@, from as int),
        from <= r <= n,
{
    let mut j = from;
    while j < n && !is_atom_break(s.get_char(j))
        invariant
            from <= j <= n,
            atom_end(s@, from as int) == atom_end(s@, j as int),
        decreases n - j,
    {
        j = j + 1;
    }
    j
}

/// Splits the source text into its tokens: separators skipped, comments
/// dropped, everything else kept in order.
#[verifier::loop_isolation(false)]
pub fn tokenize(string: &str) -> (r: Vec<String>)
    ensures
        toks_dv(r@) == tokenize_v(string@, 0),
{
    let n = string.unicode_len();
    let mut out: Vec<String> = Vec::new();
    let mut i: usize = 0;
    while i < n
        invariant
            i <= n,
            n == string@.len(),
            tokenize_v(string@, 0) =~= toks_dv(out@) + tokenize_v(string@, i as int),
        decreases n - i,
    {
        let c = string.get_char(i);
        if is_sep(c) {
            i = i + 1;
        } else {
            let j = if c == '~' && i + 1 < n && string.get_char(i + 1) == '@' {
                i + 2
            } else if is_special(c) {
                i + 1
            } else if c == '"' {
                scan_string(string, i + 1, n)
            } else if c == ';' {
                scan_comment(string, i + 1, n)
            } else {
                scan_atom(string, i + 1, n)
            };
            proof {
                assert(j == token_end(string@, i as int));
                assert(j == token_end_clamped(string@, i as int));
            }
            if c == ';' {
                i = j;
            } else {
                let tok = string.substring_char(i, j).to_owned();
                let ghost pre = out@;
                let ghost tv = tok@;
                out.push(tok);
                proof {
                    assert(toks_dv(out@) =~= toks_dv(pre).push(tv));
                    assert(toks_dv(pre).push(tv) + tokenize_v(string@, j as int) =~= toks_dv(pre)
                        + (seq![tv] + tokenize_v(string@, j as int)));
                }
                i = j;
            }
        }
    }
    proof {
        assert(tokenize_v(string@, n as int) =~= Seq::<Seq<char>>::empty());
        assert(toks_dv(out@) + Seq::<Seq<char>>::empty() =~= toks_dv(out@));
    }
    out
}

} // verus!
