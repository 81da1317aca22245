//! The translation pipeline: parse the whole program, resolve labels in a
//! first pass, then emit one 16-character binary word per real instruction
//! in a second pass.
//!
//! A syntax error aborts the whole translation; no partial output is ever
//! produced. Unknown address operands become variables allocated from
//! address 16 upwards; labels bind to the address of the next real
//! instruction.

use vstd::prelude::*;

use crate::assembler::a_encode;
use crate::assembler::c_bits;
use crate::assembler::Instruction;
use crate::assembler::SpecInstr;
use crate::parser::lemma_parse_step_advances;
use crate::parser::parse_step;
use crate::parser::ParseOutcome;
use crate::parser::Parser;
use crate::parser::SpecSyntaxError;
use crate::parser::SyntaxError;
use crate::symbols::predefined_table;
use crate::symbols::SymbolTable;

verus! {

/// The instruction sequence a vector of instructions denotes.
pub open spec fn instr_views(l: Seq<Instruction>) -> Seq<SpecInstr> {
    Seq::new(l.len(), |i: int| l[i]@)
}

/// The line sequence a vector of words denotes.
pub open spec fn line_views(l: Seq<Vec<char>>) -> Seq<Seq<char>> {
    Seq::new(l.len(), |i: int| l[i]@)
}

/// The instruction sequence the source text denotes from cursor `i` on, or
/// the syntax error that aborts it.
pub open spec fn spec_parse_program(s: Seq<char>, i: int) -> Result<Seq<SpecInstr>, SpecSyntaxError>
    decreases s.len() - i,
    when 0 <= i <= s.len()
{
    match parse_step(s, i) {
        ParseOutcome::NoMore => Ok(Seq::<SpecInstr>::empty()),
        ParseOutcome::Failed { err } => Err(err),
        ParseOutcome::Parsed { instr, end } => {
            proof {
                lemma_parse_step_advances(s, i);
            }
            match spec_parse_program(s, end) {
                Ok(rest) => Ok(seq![instr] + rest),
                Err(e) => Err(e),
            }
        },
    }
}

/// The symbol table after the label pass: each label binds its name to the
/// running count of real instructions before it; a later declaration of the
/// same name overwrites an earlier one. The count is truncated to the
/// 16-bit address word, which a program within the architecture's address
/// space never reaches.
pub open spec fn spec_resolve(
    instrs: Seq<SpecInstr>,
    table: Map<Seq<char>, u16>,
    counter: int,
) -> Map<Seq<char>, u16>
    decreases instrs.len(),
{
    if instrs.len() == 0 {
        table
    } else {
        match instrs[0] {
            SpecInstr::Label { name } => spec_resolve(
                instrs.drop_first(),
                table.insert(name, counter as u16),
                counter,
            ),
            _ => spec_resolve(instrs.drop_first(), table, counter + 1),
        }
    }
}

/// The code-generation pass: the emitted lines, the symbol table and the
/// variable cursor after encoding `instrs` in order. Labels emit nothing;
/// they were consumed by the label pass.
pub open spec fn spec_generate(instrs: Seq<SpecInstr>, table: Map<Seq<char>, u16>, cursor: u16) -> (
    Seq<Seq<char>>,
    Map<Seq<char>, u16>,
    u16,
)
    decreases instrs.len(),
{
    if instrs.len() == 0 {
        (Seq::<Seq<char>>::empty(), table, cursor)
    } else {
        match instrs[0] {
            SpecInstr::Addr { operand } => {
                let one = a_encode(operand, table, cursor);
                let rest = spec_generate(instrs.drop_first(), one.1, one.2);
                (seq![one.0] + rest.0, rest.1, rest.2)
            },
            SpecInstr::Comp { dest, comp, jump } => {
                let rest = spec_generate(instrs.drop_first(), table, cursor);
                (seq![c_bits(dest, comp, jump)] + rest.0, rest.1, rest.2)
            },
            SpecInstr::Label { name } => spec_generate(instrs.drop_first(), table, cursor),
        }
    }
}

/// The whole translation: the emitted lines for a well-formed source, or
/// the syntax error that aborts it. Variables are allocated from 16 on,
/// against the pre-seeded table with all labels already resolved.
pub open spec fn spec_assemble(s: Seq<char>) -> Result<Seq<Seq<char>>, SpecSyntaxError> {
    match spec_parse_program(s, 0) {
        Ok(instrs) => Ok(spec_generate(instrs, spec_resolve(instrs, predefined_table(), 0), 16).0),
        Err(e) => Err(e),
    }
}

/// The emitted lines joined with single newlines, no trailing newline.
pub open spec fn spec_join(lines: Seq<Seq<char>>) -> Seq<char>
    decreases lines.len(),
{
    if lines.len() == 0 {
        Seq::<char>::empty()
    } else if lines.len() == 1 {
        lines[0]
    } else {
        spec_join(lines.drop_last()) + seq!['\n'] + lines.last()
    }
}

/// A fresh copy of a token.
fn copy_token(v: &Vec<char>) -> (r: Vec<char>)
    ensures
        r@ == v@,
{
    let mut r: Vec<char> = Vec::new();
    let mut i: usize = 0;
    while i < v.len()
        invariant
            0 <= i <= v@.len(),
            r@ == v@.take(i as int),
        decreases v@.len() - i,
    {
        r.push(v[i]);
        i = i + 1;
        proof {
            assert(v@.take(i as int) =~= v@.take(i - 1).push(v@[i - 1]));
        }
    }
    proof {
        assert(v@.take(v@.len() as int) =~= v@);
    }
    r
}

/// Parses the whole source into its instruction sequence, or fails with the
/// first syntax error, exactly as `spec_parse_program` describes.
pub fn parse_program(content: Vec<char>) -> (r: Result<Vec<Instruction>, SyntaxError>)
    ensures
        match spec_parse_program(content@, 0) {
            Ok(instrs) => r matches Ok(v) && instr_views(v@) == instrs,
            Err(e) => r matches Err(er) && er@ == e,
        },
{
    let ghost s = content@;
    let mut parser = Parser::new(content);
    let mut instrs: Vec<Instruction> = Vec::new();
    loop
        invariant_except_break
            content@ == s,
            parser.wf(),
            parser.src() == s,
            0 <= parser.cursor() <= s.len(),
            match spec_parse_program(s, parser.cursor()) {
                Ok(rest) => spec_parse_program(s, 0) == Ok::<Seq<SpecInstr>, SpecSyntaxError>(
                    instr_views(instrs@) + rest,
                ),
                Err(e) => spec_parse_program(s, 0) == Err::<Seq<SpecInstr>, SpecSyntaxError>(e),
            },
        ensures
            spec_parse_program(s, 0) matches Ok(all) && instr_views(instrs@) == all,
        decreases s.len() - parser.cursor(),
    {
        let ghost c0 = parser.cursor();
        proof {
            lemma_parse_step_advances(s, c0);
        }
        match parser.next_instruction() {
            Err(e) => {
                proof {
                    assert(spec_parse_program(s, c0) == Err::<Seq<SpecInstr>, SpecSyntaxError>(
                        e@,
                    ));
                }
                return Err(e);
            },
            Ok(None) => {
                proof {
                    assert(instr_views(instrs@) + Seq::<SpecInstr>::empty() =~= instr_views(
                        instrs@,
                    ));
                }
                break;
            },
            Ok(Some(ins)) => {
                let ghost before = instrs@;
                instrs.push(ins);
                proof {
                    assert(instr_views(instrs@) =~= instr_views(before).push(ins@));
                    match parse_step(s, c0) {
                        ParseOutcome::Parsed { instr, end } => {
                            match spec_parse_program(s, end) {
                                Ok(rest2) => {
                                    assert(instr_views(before) + (seq![instr] + rest2)
                                        =~= instr_views(instrs@) + rest2);
                                },
                                Err(e2) => {},
                            }
                        },
                        _ => {},
                    }
                }
            },
        }
    }
    Ok(instrs)
}

/// The label pass: binds each label name to the address of the next real
/// instruction, counting real instructions from 0, exactly as
/// `spec_resolve` describes against the table handed in.
pub fn resolve_labels(instrs: &Vec<Instruction>, symbol_table: &mut SymbolTable)
    ensures
        final(symbol_table)@ == spec_resolve(instr_views(instrs@), old(symbol_table)@, 0),
{
    let ghost views = instr_views(instrs@);
    let ghost t0 = old(symbol_table)@;
    let mut counter: usize = 0;
    let mut i: usize = 0;
    proof {
        assert(views.skip(0) =~= views);
    }
    while i < instrs.len()
        invariant
            0 <= i <= instrs@.len(),
            counter <= i,
            views == instr_views(instrs@),
            spec_resolve(views, t0, 0) == spec_resolve(
                views.skip(i as int),
                symbol_table@,
                counter as int,
            ),
        decreases instrs@.len() - i,
    {
        proof {
            assert(views.skip(i as int)[0] == views[i as int]);
            assert(views.skip(i as int).drop_first() =~= views.skip(i + 1));
        }
        match &instrs[i] {
            Instruction::Pseudo(p) => {
                let addr: u16 = #[verifier::truncate] (counter as u16);
                symbol_table.insert(copy_token(&p.label), addr);
            },
            _ => {
                counter = counter + 1;
            },
        }
        i = i + 1;
    }
    proof {
        assert(views.skip(instrs@.len() as int) =~= Seq::<SpecInstr>::empty());
    }
}

/// The code-generation pass: encodes each instruction in order against the
/// resolved table, allocating variables from `variable_number` on, exactly
/// as `spec_generate` describes; returns the emitted lines and the final
/// cursor.
pub fn generate_code(
    instrs: Vec<Instruction>,
    symbol_table: &mut SymbolTable,
    variable_number: u16,
) -> (r: (Vec<Vec<char>>, u16))
    ensures
        ({
            let g = spec_generate(instr_views(instrs@), old(symbol_table)@, variable_number);
            &&& line_views(r.0@) == g.0
            &&& final(symbol_table)@ == g.1
            &&& r.1 == g.2
        }),
{
    let ghost views0 = instr_views(instrs@);
    let ghost t0 = old(symbol_table)@;
    let mut rest = instrs;
    let mut out: Vec<Vec<char>> = Vec::new();
    let mut cursor: u16 = variable_number;
    while rest.len() > 0
        invariant
            ({
                let g = spec_generate(views0, t0, variable_number);
                let h = spec_generate(instr_views(rest@), symbol_table@, cursor);
                &&& g.0 == line_views(out@) + h.0
                &&& g.1 == h.1
                &&& g.2 == h.2
            }),
        decreases rest@.len(),
    {
        let ghost before = rest@;
        let ins = rest.remove(0);
        proof {
            assert(before.remove(0) =~= before.drop_first());
            assert(instr_views(rest@) =~= instr_views(before).drop_first());
            assert(instr_views(before)[0] == ins@);
        }
        let ghost out_before = out@;
        match ins {
            Instruction::A(a) => {
                let (code, next) = a.machine_code(symbol_table, cursor);
                out.push(code);
                cursor = next;
            },
            Instruction::C(c) => {
                out.push(c.machine_code());
            },
            Instruction::Pseudo(_) => {},
        }
        proof {
            if out@.len() > out_before.len() {
                assert(line_views(out@) =~= line_views(out_before).push(out@.last()@));
            }
            let g = spec_generate(views0, t0, variable_number);
            let h = spec_generate(instr_views(rest@), symbol_table@, cursor);
            assert(g.0 =~= line_views(out@) + h.0);
        }
    }
    proof {
        assert(instr_views(rest@) =~= Seq::<SpecInstr>::empty());
        assert(line_views(out@) + Seq::<Seq<char>>::empty() =~= line_views(out@));
    }
    (out, cursor)
}

/// Joins the emitted lines with newlines, exactly as `spec_join` describes:
/// one line per real instruction, in source order, no trailing newline.
pub fn join_lines(lines: &Vec<Vec<char>>) -> (r: Vec<char>)
    ensures
        r@ == spec_join(line_views(lines@)),
{
    let ghost all = line_views(lines@);
    let mut r: Vec<char> = Vec::new();
    let mut i: usize = 0;
    while i < lines.len()
        invariant
            0 <= i <= lines@.len(),
            all == line_views(lines@),
            r@ == spec_join(all.take(i as int)),
        decreases lines@.len() - i,
    {
        if i > 0 {
            r.push('\n');
        }
        let mut line = copy_token(&lines[i]);
        r.append(&mut line);
        i = i + 1;
        proof {
            assert(all.take(i as int).drop_last() =~= all.take(i - 1));
            assert(all.take(i as int).last() == all[i - 1]);
            if i == 1 {
                assert(r@ =~= spec_join(all.take(1)));
            } else {
                assert(r@ =~= spec_join(all.take(i - 1)) + seq!['\n'] + all[i - 1]);
            }
        }
    }
    proof {
        assert(all.take(lines@.len() as int) =~= all);
    }
    r
}

/// The whole translation, from source text to binary lines: parses, runs
/// the label pass against the pre-seeded table, then generates code with
/// variables allocated from 16 on. A syntax error aborts the run with no
/// output, exactly as `spec_assemble` describes.
pub fn assemble(content: Vec<char>) -> (r: Result<Vec<Vec<char>>, SyntaxError>)
    ensures
        match spec_assemble(content@) {
            Ok(lines) => r matches Ok(v) && line_views(v@) == lines,
            Err(e) => r matches Err(er) && er@ == e,
        },
{
    let instrs = match parse_program(content) {
        Ok(instrs) => instrs,
        Err(e) => {
            return Err(e);
        },
    };
    let mut symbol_table = SymbolTable::new();
    resolve_labels(&instrs, &mut symbol_table);
    let (lines, _cursor) = generate_code(instrs, &mut symbol_table, 16);
    Ok(lines)
}

} // verus!
