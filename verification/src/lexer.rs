//! The scanner: turns the source text into tokens, one at a time.
//!
//! The lexer owns the full character buffer and a forward-only cursor.
//! Whitespace is skipped before each token; `//` line comments are discarded
//! through the end of their line. A token is a digit run, a letter-and-digit
//! run, or a single character of any other kind.

use vstd::prelude::*;

use crate::scan::CharClass;
use crate::scan::comment_at;
use crate::scan::lemma_run_end_bounds;
use crate::scan::lemma_run_end_chars;
use crate::scan::lemma_scan_start_blank;
use crate::scan::matches_class;
use crate::scan::run_end;
use crate::scan::scan_start;
use crate::scan::skip_comment;
use crate::scan::stmt_end;
use crate::scan::token_end;

verus! {

/// The scanner over one source text.
pub struct Lexer {
    content: Vec<char>,
    pos: usize,
}

impl Lexer {
    /// The full source text.
    pub closed spec fn src(self) -> Seq<char> {
        self.content@
    }

    /// The cursor: everything before it has been consumed.
    pub closed spec fn cursor(self) -> int {
        self.pos as int
    }

    /// The cursor never leaves the text.
    pub closed spec fn wf(self) -> bool {
        self.pos <= self.content.len()
    }

    /// Well-formedness spelled out: the cursor stays within the text.
    pub proof fn lemma_wf(self)
        requires
            self.wf(),
        ensures
            0 <= self.cursor() <= self.src().len(),
    {
    }

    /// A lexer over `content`, with the cursor at the start.
    pub fn new(content: Vec<char>) -> (l: Lexer)
        ensures
            l.wf(),
            l.src() == content@,
            l.cursor() == 0,
    {
        Lexer { content, pos: 0 }
    }

    /// Advances the cursor past the leading whitespace.
    pub fn trim_left(&mut self)
        requires
            old(self).wf(),
        ensures
            final(self).wf(),
            final(self).src() == old(self).src(),
            final(self).cursor() == run_end(old(self).src(), old(self).cursor(), CharClass::Blank),
    {
        let ghost s = self.content@;
        let ghost p0 = self.pos as int;
        while self.pos < self.content.len() && matches_class(self.content[self.pos],
            CharClass::Blank)
            invariant
                self.content@ == s,
                p0 <= self.pos as int <= s.len(),
                run_end(s, p0, CharClass::Blank) == run_end(s, self.pos as int, CharClass::Blank),
            decreases s.len() - self.pos as int,
        {
            self.pos = self.pos + 1;
        }
    }

    /// Removes the next `n` characters and returns them.
    fn chop(&mut self, n: usize) -> (t: Vec<char>)
        requires
            old(self).wf(),
            old(self).cursor() + n <= old(self).src().len(),
        ensures
            final(self).wf(),
            final(self).src() == old(self).src(),
            final(self).cursor() == old(self).cursor() + n,
            t@ == old(self).src().subrange(old(self).cursor(), old(self).cursor() + n),
    {
        let ghost s = self.content@;
        let ghost p0 = self.pos as int;
        let mut t: Vec<char> = Vec::new();
        let mut j: usize = 0;
        while j < n
            invariant
                self.content@ == s,
                self.pos as int == p0,
                0 <= j <= n,
                p0 + n <= s.len(),
                s.len() <= usize::MAX,
                t@ == s.subrange(p0, p0 + j),
            decreases n - j,
        {
            t.push(self.content[self.pos + j]);
            j = j + 1;
            proof {
                assert(t@ =~= s.subrange(p0, p0 + j));
            }
        }
        self.pos = self.pos + n;
        t
    }

    /// Removes the run of class `k` that starts at the cursor and returns it;
    /// the run may be empty.
    pub fn chop_while(&mut self, k: CharClass) -> (t: Vec<char>)
        requires
            old(self).wf(),
        ensures
            final(self).wf(),
            final(self).src() == old(self).src(),
            final(self).cursor() == run_end(old(self).src(), old(self).cursor(), k),
            t@ == old(self).src().subrange(
                old(self).cursor(),
                run_end(old(self).src(), old(self).cursor(), k),
            ),
    {
        let ghost s = self.content@;
        let ghost p0 = self.pos as int;
        let mut n: usize = 0;
        while self.pos + n < self.content.len() && matches_class(self.content[self.pos + n], k)
            invariant
                self.content@ == s,
                self.pos as int == p0,
                p0 + n <= s.len(),
                s.len() <= usize::MAX,
                run_end(s, p0, k) == run_end(s, p0 + n, k),
            decreases s.len() - (self.pos + n) as int,
        {
            n = n + 1;
        }
        self.chop(n)
    }

    /// Skips whitespace and line comments, then returns the next token, or
    /// `None` when the text is exhausted.
    pub fn next_token(&mut self) -> (r: Option<Vec<char>>)
        requires
            old(self).wf(),
        ensures
            final(self).wf(),
            final(self).src() == old(self).src(),
            0 <= final(self).cursor() <= final(self).src().len(),
            ({
                let s = old(self).src();
                let j = scan_start(s, old(self).cursor());
                match r {
                    None => j == s.len() && final(self).cursor() == s.len(),
                    Some(t) => {
                        &&& j < s.len()
                        &&& final(self).cursor() == token_end(s, j)
                        &&& t@ == s.subrange(j, token_end(s, j))
                        &&& t@.len() >= 1
                    },
                }
            }),
    {
        let ghost s = self.content@;
        let ghost p0 = self.pos as int;
        loop
            invariant_except_break
                self.wf(),
                self.content@ == s,
                p0 <= self.pos as int <= s.len(),
                scan_start(s, p0) == scan_start(s, self.pos as int),
            ensures
                self.wf(),
                self.content@ == s,
                self.pos as int == scan_start(s, p0),
            decreases s.len() - self.pos as int,
        {
            proof {
                lemma_scan_start_blank(s, self.pos as int);
                lemma_run_end_bounds(s, self.pos as int, CharClass::Blank);
                lemma_run_end_chars(s, self.pos as int, CharClass::Blank);
            }
            self.trim_left();
            if self.content.len() - self.pos > 1 && self.content[self.pos] == '/'
                && self.content[self.pos + 1] == '/' {
                let ghost c0 = self.pos as int;
                proof {
                    assert(comment_at(s, c0));
                    assert(run_end(s, c0, CharClass::NotLineBreak) == run_end(
                        s,
                        c0 + 1,
                        CharClass::NotLineBreak,
                    ));
                    assert(run_end(s, c0 + 1, CharClass::NotLineBreak) == run_end(
                        s,
                        c0 + 2,
                        CharClass::NotLineBreak,
                    ));
                    lemma_run_end_bounds(s, c0, CharClass::NotLineBreak);
                }
                let _comment = self.chop_while(CharClass::NotLineBreak);
                if self.pos < self.content.len() {
                    let _newline = self.chop(1);
                }
                proof {
                    assert(self.pos as int == skip_comment(s, c0 + 2));
                    assert(scan_start(s, c0) == scan_start(s, skip_comment(s, c0 + 2)));
                }
            } else {
                break;
            }
        }
        if self.pos == self.content.len() {
            return None;
        }
        let ghost j = self.pos as int;
        let c = self.content[self.pos];
        if matches_class(c, CharClass::Digit) {
            let t = self.chop_while(CharClass::Digit);
            proof {
                assert(run_end(s, j, CharClass::Digit) == run_end(s, j + 1, CharClass::Digit));
                lemma_run_end_bounds(s, j + 1, CharClass::Digit);
            }
            Some(t)
        } else if matches_class(c, CharClass::AlphaNumeric) {
            let t = self.chop_while(CharClass::AlphaNumeric);
            proof {
                assert(run_end(s, j, CharClass::AlphaNumeric) == run_end(
                    s,
                    j + 1,
                    CharClass::AlphaNumeric,
                ));
                lemma_run_end_bounds(s, j + 1, CharClass::AlphaNumeric);
            }
            Some(t)
        } else {
            let t = self.chop(1);
            Some(t)
        }
    }

    /// Whether the whole text has been consumed.
    pub fn is_empty(&self) -> (r: bool)
        requires
            self.wf(),
        ensures
            r == (self.cursor() == self.src().len()),
    {
        self.pos == self.content.len()
    }

    /// Looks ahead, without consuming anything, to the first character of the
    /// next token; `None` when no token remains.
    pub fn peek_token_char(&self) -> (r: Option<char>)
        requires
            self.wf(),
        ensures
            ({
                let j = scan_start(self.src(), self.cursor());
                if j == self.src().len() {
                    r is None
                } else {
                    r == Some(self.src()[j])
                }
            }),
    {
        let ghost s = self.content@;
        let ghost p0 = self.pos as int;
        let mut p: usize = self.pos;
        loop
            invariant_except_break
                self.wf(),
                self.content@ == s,
                p0 <= p as int <= s.len(),
                scan_start(s, p0) == scan_start(s, p as int),
            ensures
                p as int == scan_start(s, p0),
                p <= s.len(),
            decreases s.len() - p as int,
        {
            proof {
                lemma_scan_start_blank(s, p as int);
                lemma_run_end_bounds(s, p as int, CharClass::Blank);
                lemma_run_end_chars(s, p as int, CharClass::Blank);
            }
            let ghost b0 = p as int;
            while p < self.content.len() && matches_class(self.content[p], CharClass::Blank)
                invariant
                    self.content@ == s,
                    b0 <= p as int <= s.len(),
                    run_end(s, b0, CharClass::Blank) == run_end(s, p as int, CharClass::Blank),
                decreases s.len() - p as int,
            {
                p = p + 1;
            }
            if self.content.len() - p > 1 && self.content[p] == '/' && self.content[p + 1] == '/' {
                let ghost c0 = p as int;
                proof {
                    assert(comment_at(s, c0));
                    assert(run_end(s, c0, CharClass::NotLineBreak) == run_end(
                        s,
                        c0 + 1,
                        CharClass::NotLineBreak,
                    ));
                    assert(run_end(s, c0 + 1, CharClass::NotLineBreak) == run_end(
                        s,
                        c0 + 2,
                        CharClass::NotLineBreak,
                    ));
                    lemma_run_end_bounds(s, c0, CharClass::NotLineBreak);
                }
                while p < self.content.len() && matches_class(self.content[p],
                    CharClass::NotLineBreak)
                    invariant
                        self.content@ == s,
                        c0 <= p as int <= s.len(),
                        run_end(s, c0, CharClass::NotLineBreak) == run_end(
                            s,
                            p as int,
                            CharClass::NotLineBreak,
                        ),
                    decreases s.len() - p as int,
                {
                    p = p + 1;
                }
                if p < self.content.len() {
                    p = p + 1;
                }
                proof {
                    assert(p as int == skip_comment(s, c0 + 2));
                }
            } else {
                break;
            }
        }
        if p == self.content.len() {
            None
        } else {
            Some(self.content[p])
        }
    }

    /// Whether the statement the cursor sits in has ended: after this line's
    /// blanks, the text ends, a line break follows, or a comment begins.
    pub fn at_statement_end(&self) -> (r: bool)
        requires
            self.wf(),
        ensures
            r == stmt_end(self.src(), self.cursor()),
    {
        let ghost s = self.content@;
        let ghost p0 = self.pos as int;
        let mut p: usize = self.pos;
        while p < self.content.len() && matches_class(self.content[p], CharClass::InlineBlank)
            invariant
                self.content@ == s,
                p0 <= p as int <= s.len(),
                run_end(s, p0, CharClass::InlineBlank) == run_end(
                    s,
                    p as int,
                    CharClass::InlineBlank,
                ),
            decreases s.len() - p as int,
        {
            p = p + 1;
        }
        if p == self.content.len() {
            true
        } else {
            let c = self.content[p];
            c == '\n' || c == '\r' || (self.content.len() - p > 1 && c == '/' && self.content[p
                + 1] == '/')
        }
    }
}

} // verus!
