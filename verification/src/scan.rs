//! Character classification and the specification of the scanner's movement
//! over the source text.
//!
//! The executable scanner lives in `lexer`; the spec functions here describe,
//! position by position, where whitespace skipping, comment skipping and token
//! runs end, so that every scanner contract can be stated exactly.

use vstd::prelude::*;

verus! {

/// ASCII whitespace: blanks that separate tokens, line breaks included.
pub open spec fn is_blank(c: char) -> bool {
    c == ' ' || c == '\t' || c == '\n' || c == '\r' || c == '\x0b' || c == '\x0c'
}

/// Characters that end a source line.
pub open spec fn is_line_break(c: char) -> bool {
    c == '\n' || c == '\r'
}

/// Decimal digits.
pub open spec fn is_digit(c: char) -> bool {
    '0' <= c && c <= '9'
}

/// ASCII letters; the source alphabet has no `_` or `.` in identifiers.
pub open spec fn is_letter(c: char) -> bool {
    ('a' <= c && c <= 'z') || ('A' <= c && c <= 'Z')
}

/// The character runs the scanner chops greedily.
#[derive(Clone, Copy, PartialEq, Eq, Structural)]
pub enum CharClass {
    /// A run of decimal digits: a numeric literal.
    Digit,
    /// A run of letters and digits: an identifier or symbol name.
    AlphaNumeric,
    /// Everything up to a line break: the body of a line comment.
    NotLineBreak,
    /// A run of whitespace, line breaks included.
    Blank,
    /// Whitespace within one line: blanks that are not line breaks.
    InlineBlank,
}

/// Whether `c` belongs to the run class `k`.
pub open spec fn char_in_class(c: char, k: CharClass) -> bool {
    match k {
        CharClass::Digit => is_digit(c),
        CharClass::AlphaNumeric => is_letter(c) || is_digit(c),
        CharClass::NotLineBreak => c != '\n',
        CharClass::Blank => is_blank(c),
        CharClass::InlineBlank => is_blank(c) && !is_line_break(c),
    }
}

/// Decides `char_in_class` executably.
pub fn matches_class(c: char, k: CharClass) -> (r: bool)
    ensures
        r == char_in_class(c, k),
{
    match k {
        CharClass::Digit => '0' <= c && c <= '9',
        CharClass::AlphaNumeric => ('a' <= c && c <= 'z') || ('A' <= c && c <= 'Z') || ('0' <= c
            && c <= '9'),
        CharClass::NotLineBreak => c != '\n',
        CharClass::Blank => c == ' ' || c == '\t' || c == '\n' || c == '\r' || c == '\x0b' || c
            == '\x0c',
        CharClass::InlineBlank => c == ' ' || c == '\t' || c == '\x0b' || c == '\x0c',
    }
}

/// First position at or after `i` whose character is not in class `k`
/// (or the end of the text).
pub open spec fn run_end(s: Seq<char>, i: int, k: CharClass) -> int
    decreases s.len() - i,
    when 0 <= i <= s.len()
{
    if i >= s.len() {
        i
    } else if char_in_class(s[i], k) {
        run_end(s, i + 1, k)
    } else {
        i
    }
}

/// A run never moves backwards and never leaves the text.
pub proof fn lemma_run_end_bounds(s: Seq<char>, i: int, k: CharClass)
    requires
        0 <= i <= s.len(),
    ensures
        i <= run_end(s, i, k) <= s.len(),
    decreases s.len() - i,
{
    if i < s.len() && char_in_class(s[i], k) {
        lemma_run_end_bounds(s, i + 1, k);
    }
}

/// Every character inside a run is in the run's class, and the run stops
/// for a reason: the end of the text or a character outside the class.
pub proof fn lemma_run_end_chars(s: Seq<char>, i: int, k: CharClass)
    requires
        0 <= i <= s.len(),
    ensures
        forall|j: int| i <= j < run_end(s, i, k) ==> char_in_class(s[j], k),
        run_end(s, i, k) < s.len() ==> !char_in_class(s[run_end(s, i, k)], k),
    decreases s.len() - i,
{
    if i < s.len() && char_in_class(s[i], k) {
        lemma_run_end_chars(s, i + 1, k);
    }
}

/// Position just after a line comment that starts at `i` (just after the
/// `//`): everything through the next newline is discarded, or through the
/// end of the text when no newline follows.
pub open spec fn skip_comment(s: Seq<char>, i: int) -> int {
    if run_end(s, i, CharClass::NotLineBreak) < s.len() {
        run_end(s, i, CharClass::NotLineBreak) + 1
    } else {
        s.len() as int
    }
}

/// Whether a line comment (`//`) starts at position `i`.
pub open spec fn comment_at(s: Seq<char>, i: int) -> bool {
    i + 1 < s.len() && s[i] == '/' && s[i + 1] == '/'
}

/// Position of the next token: blanks and line comments before it are
/// skipped; the result is the end of the text when no token remains.
pub open spec fn scan_start(s: Seq<char>, i: int) -> int
    decreases s.len() - i,
    when 0 <= i <= s.len()
{
    if i >= s.len() {
        i
    } else if is_blank(s[i]) {
        scan_start(s, i + 1)
    } else if comment_at(s, i) {
        proof {
            lemma_run_end_bounds(s, i + 2, CharClass::NotLineBreak);
        }
        scan_start(s, skip_comment(s, i + 2))
    } else {
        i
    }
}

/// Skipping to a token never moves backwards and never leaves the text.
pub proof fn lemma_scan_start_bounds(s: Seq<char>, i: int)
    requires
        0 <= i <= s.len(),
    ensures
        i <= scan_start(s, i) <= s.len(),
    decreases s.len() - i,
{
    if i < s.len() {
        if is_blank(s[i]) {
            lemma_scan_start_bounds(s, i + 1);
        } else if comment_at(s, i) {
            lemma_run_end_bounds(s, i + 2, CharClass::NotLineBreak);
            lemma_scan_start_bounds(s, skip_comment(s, i + 2));
        }
    }
}

/// Skipping blanks alone makes the same progress as the full scan: the scan
/// may then go on over comments, but never stops inside a blank run.
pub proof fn lemma_scan_start_blank(s: Seq<char>, i: int)
    requires
        0 <= i <= s.len(),
    ensures
        scan_start(s, i) == scan_start(s, run_end(s, i, CharClass::Blank)),
    decreases s.len() - i,
{
    if i < s.len() && is_blank(s[i]) {
        lemma_scan_start_blank(s, i + 1);
    }
}

/// End of the token that starts at position `i`: a digit extends through a
/// digit run, a letter through a letter-and-digit run, and any other
/// character stands alone.
pub open spec fn token_end(s: Seq<char>, i: int) -> int {
    if is_digit(s[i]) {
        run_end(s, i, CharClass::Digit)
    } else if is_letter(s[i]) {
        run_end(s, i, CharClass::AlphaNumeric)
    } else {
        i + 1
    }
}

/// A token occupies at least one character and stays within the text.
pub proof fn lemma_token_end_bounds(s: Seq<char>, i: int)
    requires
        0 <= i < s.len(),
    ensures
        i < token_end(s, i) <= s.len(),
{
    if is_digit(s[i]) {
        lemma_run_end_bounds(s, i + 1, CharClass::Digit);
        assert(run_end(s, i, CharClass::Digit) == run_end(s, i + 1, CharClass::Digit));
    } else if is_letter(s[i]) {
        lemma_run_end_bounds(s, i + 1, CharClass::AlphaNumeric);
        assert(run_end(s, i, CharClass::AlphaNumeric) == run_end(s, i + 1, CharClass::AlphaNumeric));
    }
}

/// Whether the statement that the cursor `i` sits in has ended: after the
/// blanks of the current line, the text is exhausted, a line break follows,
/// or a comment begins.
pub open spec fn stmt_end(s: Seq<char>, i: int) -> bool {
    let m = run_end(s, i, CharClass::InlineBlank);
    m >= s.len() || is_line_break(s[m]) || comment_at(s, m)
}

/// While a statement has not ended, the next token starts on the same line:
/// scanning for it skips exactly the line's inline blanks.
pub proof fn lemma_scan_start_stmt(s: Seq<char>, i: int)
    requires
        0 <= i <= s.len(),
        !stmt_end(s, i),
    ensures
        scan_start(s, i) == run_end(s, i, CharClass::InlineBlank),
        scan_start(s, i) < s.len(),
    decreases s.len() - i,
{
    if i < s.len() && char_in_class(s[i], CharClass::InlineBlank) {
        lemma_scan_start_stmt(s, i + 1);
    }
}

} // verus!
