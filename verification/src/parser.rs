//! The instruction parser: assembles one instruction per call from the
//! scanner's tokens.
//!
//! Dispatch goes by the first token of a statement: `@` starts an address
//! instruction, `(` a label declaration, and anything else a compute
//! instruction. Lookahead is done by direct inspection of the unconsumed
//! character range — the scanner has no pushback — so a peeked token that
//! turns out not to belong to the statement is left unconsumed.

use vstd::prelude::*;

use crate::assembler::AInstruction;
use crate::assembler::CInstruction;
use crate::assembler::Instruction;
use crate::assembler::PseudoInstruction;
use crate::assembler::SpecInstr;
use crate::lexer::Lexer;
use crate::scan::lemma_scan_start_bounds;
use crate::scan::lemma_scan_start_stmt;
use crate::scan::lemma_token_end_bounds;
use crate::scan::scan_start;
use crate::scan::stmt_end;
use crate::scan::token_end;

verus! {

/// A fatal parse failure; it aborts the whole translation and carries the
/// offending context.
#[derive(Debug)]
pub enum SyntaxError {
    /// `@` stood at the end of the input with no operand token after it.
    MissingOperand,
    /// A label declaration was not closed by `)`; the field holds the label
    /// name read so far.
    UnclosedLabel { name: Vec<char> },
    /// A statement opened with a bare token and no second token followed;
    /// the field holds that first token.
    MissingExpression { first: Vec<char> },
}

/// The mathematical form of a parse failure.
pub enum SpecSyntaxError {
    MissingOperand,
    UnclosedLabel { name: Seq<char> },
    MissingExpression { first: Seq<char> },
}

impl View for SyntaxError {
    type V = SpecSyntaxError;

    open spec fn view(&self) -> SpecSyntaxError {
        match self {
            SyntaxError::MissingOperand => SpecSyntaxError::MissingOperand,
            SyntaxError::UnclosedLabel { name } => (SpecSyntaxError::UnclosedLabel {
                name: name@,
            }),
            SyntaxError::MissingExpression { first } => (SpecSyntaxError::MissingExpression {
                first: first@,
            }),
        }
    }
}

/// What one parsing step yields: the end of the input, an instruction with
/// the cursor position after it, or a failure.
pub enum ParseOutcome {
    NoMore,
    Parsed { instr: SpecInstr, end: int },
    Failed { err: SpecSyntaxError },
}

/// The compute-expression accumulation that follows `dest=`: tokens are
/// concatenated without separators until the statement ends or a `;` begins
/// the jump field. Yields the expression, the jump field, and the cursor
/// position afterwards.
pub open spec fn comp_loop(s: Seq<char>, i: int, acc: Seq<char>) -> (Seq<char>, Seq<char>, int)
    decreases s.len() - i,
    when 0 <= i <= s.len()
{
    if stmt_end(s, i) {
        (acc, Seq::<char>::empty(), i)
    } else {
        let j = scan_start(s, i);
        let te = token_end(s, j);
        let t = s.subrange(j, te);
        if t == seq![';'] {
            let j2 = scan_start(s, te);
            if j2 >= s.len() {
                (acc, Seq::<char>::empty(), s.len() as int)
            } else {
                (acc, s.subrange(j2, token_end(s, j2)), token_end(s, j2))
            }
        } else {
            proof {
                lemma_scan_start_bounds(s, i);
                lemma_scan_start_stmt(s, i);
                lemma_token_end_bounds(s, j);
            }
            comp_loop(s, te, acc + t)
        }
    }
}

/// The accumulation never moves backwards and never leaves the text.
pub proof fn lemma_comp_loop_bounds(s: Seq<char>, i: int, acc: Seq<char>)
    requires
        0 <= i <= s.len(),
    ensures
        i <= comp_loop(s, i, acc).2 <= s.len(),
    decreases s.len() - i,
{
    if !stmt_end(s, i) {
        lemma_scan_start_bounds(s, i);
        lemma_scan_start_stmt(s, i);
        let j = scan_start(s, i);
        lemma_token_end_bounds(s, j);
        let te = token_end(s, j);
        let t = s.subrange(j, te);
        if t == seq![';'] {
            lemma_scan_start_bounds(s, te);
            let j2 = scan_start(s, te);
            if j2 < s.len() {
                lemma_token_end_bounds(s, j2);
            }
        } else {
            lemma_comp_loop_bounds(s, te, acc + t);
        }
    }
}

/// One parsing step at cursor `i`: which instruction (or failure) the next
/// statement yields, and where the cursor stands afterwards.
pub open spec fn parse_step(s: Seq<char>, i: int) -> ParseOutcome {
    let j = scan_start(s, i);
    if j >= s.len() {
        ParseOutcome::NoMore
    } else {
        let fe = token_end(s, j);
        let f = s.subrange(j, fe);
        if f[0] == '@' {
            let j2 = scan_start(s, fe);
            if j2 >= s.len() {
                ParseOutcome::Failed { err: SpecSyntaxError::MissingOperand }
            } else {
                ParseOutcome::Parsed {
                    instr: SpecInstr::Addr { operand: s.subrange(j2, token_end(s, j2)) },
                    end: token_end(s, j2),
                }
            }
        } else if f[0] == '(' {
            let j2 = scan_start(s, fe);
            if j2 >= s.len() {
                ParseOutcome::Failed {
                    err: SpecSyntaxError::UnclosedLabel { name: Seq::<char>::empty() },
                }
            } else {
                let ne = token_end(s, j2);
                let name = s.subrange(j2, ne);
                let j3 = scan_start(s, ne);
                if j3 >= s.len() {
                    ParseOutcome::Failed { err: SpecSyntaxError::UnclosedLabel { name } }
                } else if s.subrange(j3, token_end(s, j3)) == seq![')'] {
                    ParseOutcome::Parsed {
                        instr: SpecInstr::Label { name },
                        end: token_end(s, j3),
                    }
                } else {
                    ParseOutcome::Failed { err: SpecSyntaxError::UnclosedLabel { name } }
                }
            }
        } else {
            let j2 = scan_start(s, fe);
            if j2 >= s.len() {
                ParseOutcome::Failed { err: SpecSyntaxError::MissingExpression { first: f } }
            } else if s[j2] == '=' {
                let rest = comp_loop(s, token_end(s, j2), Seq::<char>::empty());
                ParseOutcome::Parsed {
                    instr: SpecInstr::Comp { dest: f, comp: rest.0, jump: rest.1 },
                    end: rest.2,
                }
            } else if s[j2] == ';' {
                let se = token_end(s, j2);
                let j3 = scan_start(s, se);
                if j3 >= s.len() {
                    ParseOutcome::Parsed {
                        instr: SpecInstr::Comp {
                            dest: Seq::<char>::empty(),
                            comp: f,
                            jump: Seq::<char>::empty(),
                        },
                        end: s.len() as int,
                    }
                } else {
                    ParseOutcome::Parsed {
                        instr: SpecInstr::Comp {
                            dest: Seq::<char>::empty(),
                            comp: f,
                            jump: s.subrange(j3, token_end(s, j3)),
                        },
                        end: token_end(s, j3),
                    }
                }
            } else {
                ParseOutcome::Parsed {
                    instr: SpecInstr::Comp {
                        dest: Seq::<char>::empty(),
                        comp: f,
                        jump: Seq::<char>::empty(),
                    },
                    end: fe,
                }
            }
        }
    }
}

/// A parsed instruction always consumes at least one character.
pub proof fn lemma_parse_step_advances(s: Seq<char>, i: int)
    requires
        0 <= i <= s.len(),
    ensures
        match parse_step(s, i) {
            ParseOutcome::NoMore => scan_start(s, i) == s.len(),
            ParseOutcome::Parsed { instr, end } => i < end <= s.len(),
            ParseOutcome::Failed { err } => true,
        },
{
    lemma_scan_start_bounds(s, i);
    let j = scan_start(s, i);
    if j < s.len() {
        lemma_token_end_bounds(s, j);
        let fe = token_end(s, j);
        let f = s.subrange(j, fe);
        lemma_scan_start_bounds(s, fe);
        let j2 = scan_start(s, fe);
        if f[0] == '@' || f[0] == '(' {
            if j2 < s.len() {
                lemma_token_end_bounds(s, j2);
                let ne = token_end(s, j2);
                lemma_scan_start_bounds(s, ne);
                let j3 = scan_start(s, ne);
                if j3 < s.len() {
                    lemma_token_end_bounds(s, j3);
                }
            }
        } else if j2 < s.len() {
            lemma_token_end_bounds(s, j2);
            let se = token_end(s, j2);
            if s[j2] == '=' {
                lemma_comp_loop_bounds(s, se, Seq::<char>::empty());
            } else if s[j2] == ';' {
                lemma_scan_start_bounds(s, se);
                let j3 = scan_start(s, se);
                if j3 < s.len() {
                    lemma_token_end_bounds(s, j3);
                }
            }
        }
    }
}

/// The parser: wraps the scanner and yields one instruction per call.
pub struct Parser {
    lexer: Lexer,
}

impl Parser {
    /// The full source text.
    pub closed spec fn src(self) -> Seq<char> {
        self.lexer.src()
    }

    /// The cursor into the source text.
    pub closed spec fn cursor(self) -> int {
        self.lexer.cursor()
    }

    /// The cursor never leaves the text.
    pub closed spec fn wf(self) -> bool {
        self.lexer.wf()
    }

    /// A parser over `content`, with the cursor at the start.
    pub fn new(content: Vec<char>) -> (p: Parser)
        ensures
            p.wf(),
            p.src() == content@,
            p.cursor() == 0,
    {
        Parser { lexer: Lexer::new(content) }
    }

    /// Parses the next statement: `Ok(None)` at the end of the input,
    /// `Ok(Some(_))` for an instruction, and `Err(_)` for a syntax error,
    /// exactly as `parse_step` describes.
    pub fn next_instruction(&mut self) -> (r: Result<Option<Instruction>, SyntaxError>)
        requires
            old(self).wf(),
        ensures
            final(self).wf(),
            final(self).src() == old(self).src(),
            match parse_step(old(self).src(), old(self).cursor()) {
                ParseOutcome::NoMore => r matches Ok(o) && o is None && final(self).cursor()
                    == old(self).src().len(),
                ParseOutcome::Parsed { instr, end } => r matches Ok(o) && o matches Some(ins)
                    && ins@ == instr && final(self).cursor() == end,
                ParseOutcome::Failed { err } => r matches Err(e) && e@ == err,
            },
    {
        let ghost s = self.lexer.src();
        let ghost i0 = self.lexer.cursor();
        proof {
            self.lexer.lemma_wf();
            lemma_scan_start_bounds(s, i0);
        }
        let f = match self.lexer.next_token() {
            None => {
                return Ok(None);
            },
            Some(f) => f,
        };
        let ghost j = scan_start(s, i0);
        let ghost fe = token_end(s, j);
        proof {
            lemma_token_end_bounds(s, j);
            lemma_scan_start_bounds(s, fe);
            if scan_start(s, fe) < s.len() {
                lemma_token_end_bounds(s, scan_start(s, fe));
            }
        }
        if f[0] == '@' {
            match self.lexer.next_token() {
                None => Err(SyntaxError::MissingOperand),
                Some(operand) => Ok(Some(Instruction::A(AInstruction::new(operand)))),
            }
        } else if f[0] == '(' {
            match self.lexer.next_token() {
                None => Err(SyntaxError::UnclosedLabel { name: Vec::new() }),
                Some(name) => {
                    proof {
                        let ne = token_end(s, scan_start(s, fe));
                        lemma_scan_start_bounds(s, ne);
                        if scan_start(s, ne) < s.len() {
                            lemma_token_end_bounds(s, scan_start(s, ne));
                        }
                    }
                    match self.lexer.next_token() {
                        None => Err(SyntaxError::UnclosedLabel { name }),
                        Some(close) => {
                            let is_close = close.len() == 1 && close[0] == ')';
                            proof {
                                if is_close {
                                    assert(close@ =~= seq![')']);
                                }
                            }
                            if is_close {
                                Ok(Some(Instruction::Pseudo(PseudoInstruction { label: name })))
                            } else {
                                Err(SyntaxError::UnclosedLabel { name })
                            }
                        },
                    }
                },
            }
        } else {
            match self.lexer.peek_token_char() {
                None => Err(SyntaxError::MissingExpression { first: f }),
                Some(c) => {
                    if c == '=' {
                        let _assign = self.lexer.next_token();
                        let mut instr = CInstruction::new();
                        instr.dest = f;
                        let ghost e0 = self.lexer.cursor();
                        proof {
                            assert(e0 == token_end(s, scan_start(s, fe)));
                        }
                        loop
                            invariant_except_break
                                self.lexer.wf(),
                                self.lexer.src() == s,
                                0 <= e0 <= self.lexer.cursor() <= s.len(),
                                instr.dest@ == s.subrange(j, fe),
                                instr.jmp@ == Seq::<char>::empty(),
                                comp_loop(s, e0, Seq::<char>::empty()) == comp_loop(
                                    s,
                                    self.lexer.cursor(),
                                    instr.comp@,
                                ),
                            ensures
                                self.lexer.wf(),
                                self.lexer.src() == s,
                                instr.dest@ == s.subrange(j, fe),
                                ({
                                    let rest = comp_loop(s, e0, Seq::<char>::empty());
                                    &&& instr.comp@ == rest.0
                                    &&& instr.jmp@ == rest.1
                                    &&& self.lexer.cursor() == rest.2
                                }),
                            decreases s.len() - self.lexer.cursor(),
                        {
                            if self.lexer.at_statement_end() {
                                break;
                            }
                            proof {
                                lemma_scan_start_bounds(s, self.lexer.cursor());
                                lemma_scan_start_stmt(s, self.lexer.cursor());
                                lemma_token_end_bounds(s, scan_start(s, self.lexer.cursor()));
                            }
                            let t = match self.lexer.next_token() {
                                Some(t) => t,
                                None => {
                                    proof {
                                        assert(false);
                                    }
                                    break;
                                },
                            };
                            let is_semi = t.len() == 1 && t[0] == ';';
                            proof {
                                if is_semi {
                                    assert(t@ =~= seq![';']);
                                }
                            }
                            if is_semi {
                                match self.lexer.next_token() {
                                    None => {},
                                    Some(jump) => {
                                        instr.jmp = jump;
                                    },
                                }
                                break;
                            } else {
                                let mut tail = t;
                                instr.comp.append(&mut tail);
                            }
                        }
                        Ok(Some(Instruction::C(instr)))
                    } else if c == ';' {
                        let _semi = self.lexer.next_token();
                        proof {
                            let se = token_end(s, scan_start(s, fe));
                            lemma_scan_start_bounds(s, se);
                            if scan_start(s, se) < s.len() {
                                lemma_token_end_bounds(s, scan_start(s, se));
                            }
                        }
                        let mut instr = CInstruction::new();
                        instr.comp = f;
                        match self.lexer.next_token() {
                            None => {},
                            Some(jump) => {
                                instr.jmp = jump;
                            },
                        }
                        Ok(Some(Instruction::C(instr)))
                    } else {
                        let mut instr = CInstruction::new();
                        instr.comp = f;
                        Ok(Some(Instruction::C(instr)))
                    }
                },
            }
        }
    }
}

} // verus!
