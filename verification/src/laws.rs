//! The laws the translation obeys, each stated over the spec functions the
//! executable contracts use and proved once and for all.

use vstd::prelude::*;

use crate::assembler::a_encode;
use crate::assembler::bin16;
use crate::assembler::c_bits;
use crate::assembler::comp_code;
use crate::assembler::dec_val;
use crate::assembler::is_dec;
use crate::assembler::strip_blanks;
use crate::assembler::SpecInstr;
use crate::scan::is_blank;
use crate::scan::is_digit;
use crate::symbols::predefined_table;
use crate::translate::spec_generate;
use crate::translate::spec_resolve;

verus! {

/// Law: a decimal literal operand in the architectural range 0–32767
/// encodes to its own 16-bit binary form, and neither the symbol table nor
/// the variable cursor changes.
pub proof fn lemma_literal_operand(operand: Seq<char>, table: Map<Seq<char>, u16>, cursor: u16)
    requires
        is_dec(operand),
        0 <= dec_val(operand) <= 32767,
    ensures
        a_encode(operand, table, cursor) == (bin16(dec_val(operand)), table, cursor),
{
}

/// Law: of two distinct symbol names absent from the table, the first
/// occurrence allocates address 16, the second distinct name allocates 17,
/// and re-referencing the first returns its allocated 16 unchanged, with
/// no further table or cursor movement.
pub proof fn lemma_variable_allocation(n1: Seq<char>, n2: Seq<char>, table: Map<Seq<char>, u16>)
    requires
        !is_dec(n1),
        !is_dec(n2),
        n1 != n2,
        !table.contains_key(n1),
        !table.contains_key(n2),
    ensures
        ({
            let first = a_encode(n1, table, 16);
            let second = a_encode(n2, first.1, first.2);
            let again = a_encode(n1, second.1, second.2);
            &&& first.0 == bin16(16) && first.2 == 17
            &&& second.0 == bin16(17) && second.2 == 18
            &&& again.0 == bin16(16)
            &&& again.1 == second.1 && again.2 == second.2
        }),
{
}

/// Whether an instruction is a label declaring exactly `name`.
pub open spec fn is_label_named(si: SpecInstr, name: Seq<char>) -> bool {
    si matches SpecInstr::Label { name: n } && n == name
}

/// How many real (non-label) instructions a sequence holds.
pub open spec fn real_count(instrs: Seq<SpecInstr>) -> int
    decreases instrs.len(),
{
    if instrs.len() == 0 {
        0
    } else {
        (if instrs[0] matches SpecInstr::Label { .. } {
            0int
        } else {
            1int
        }) + real_count(instrs.drop_first())
    }
}

/// Label resolution leaves a name alone when no instruction declares it.
pub proof fn lemma_resolve_untouched(
    instrs: Seq<SpecInstr>,
    table: Map<Seq<char>, u16>,
    counter: int,
    name: Seq<char>,
)
    requires
        forall|k: int| 0 <= k < instrs.len() ==> !is_label_named(instrs[k], name),
    ensures
        spec_resolve(instrs, table, counter).contains_key(name) == table.contains_key(name),
        table.contains_key(name) ==> spec_resolve(instrs, table, counter)[name] == table[name],
    decreases instrs.len(),
{
    if instrs.len() > 0 {
        assert(!is_label_named(instrs[0], name));
        assert(forall|k: int|
            0 <= k < instrs.drop_first().len() ==> instrs.drop_first()[k] == instrs[k + 1]
                && !is_label_named(instrs[k + 1], name));
        match instrs[0] {
            SpecInstr::Label { name: other } => {
                lemma_resolve_untouched(
                    instrs.drop_first(),
                    table.insert(other, counter as u16),
                    counter,
                    name,
                );
            },
            _ => {
                lemma_resolve_untouched(instrs.drop_first(), table, counter + 1, name);
            },
        }
    }
}

/// Law: a label declaration that is not re-declared later binds its name to
/// the running count, at its position, of the real instructions before it.
pub proof fn lemma_label_binding(
    instrs: Seq<SpecInstr>,
    table: Map<Seq<char>, u16>,
    counter: int,
    i: int,
    name: Seq<char>,
)
    requires
        0 <= i < instrs.len(),
        is_label_named(instrs[i], name),
        forall|k: int| i < k < instrs.len() ==> !is_label_named(instrs[k], name),
    ensures
        spec_resolve(instrs, table, counter).contains_key(name),
        spec_resolve(instrs, table, counter)[name] == (counter + real_count(instrs.take(i))) as u16,
    decreases instrs.len(),
{
    assert(forall|k: int|
        0 <= k < instrs.drop_first().len() ==> instrs.drop_first()[k] == instrs[k + 1]);
    if i == 0 {
        assert(instrs.take(0) =~= Seq::<SpecInstr>::empty());
        match instrs[0] {
            SpecInstr::Label { name: n0 } => {
                lemma_resolve_untouched(
                    instrs.drop_first(),
                    table.insert(n0, counter as u16),
                    counter,
                    name,
                );
            },
            _ => {},
        }
    } else {
        assert(instrs.take(i).drop_first() =~= instrs.drop_first().take(i - 1));
        assert(instrs.take(i)[0] == instrs[0]);
        match instrs[0] {
            SpecInstr::Label { name: n0 } => {
                lemma_label_binding(
                    instrs.drop_first(),
                    table.insert(n0, counter as u16),
                    counter,
                    i - 1,
                    name,
                );
            },
            _ => {
                lemma_label_binding(instrs.drop_first(), table, counter + 1, i - 1, name);
            },
        }
    }
}

/// Law: against a table resolved from instruction count 0, a label not
/// re-declared later stands for the number of real instructions before it,
/// and an address instruction on that name encodes exactly that address,
/// wherever in the program it occurs and whatever the variable cursor is.
pub proof fn lemma_label_resolution(
    instrs: Seq<SpecInstr>,
    table: Map<Seq<char>, u16>,
    i: int,
    name: Seq<char>,
    cursor: u16,
)
    requires
        0 <= i < instrs.len(),
        is_label_named(instrs[i], name),
        forall|k: int| i < k < instrs.len() ==> !is_label_named(instrs[k], name),
        !is_dec(name),
    ensures
        ({
            let t = spec_resolve(instrs, table, 0);
            &&& t.contains_key(name)
            &&& t[name] == real_count(instrs.take(i)) as u16
            &&& a_encode(name, t, cursor) == (bin16(t[name] as int), t, cursor)
        }),
{
    lemma_label_binding(instrs, table, 0, i, name);
}

/// A sequence's membership of a character splits off its last element.
proof fn lemma_contains_drop_last(s: Seq<char>, c: char)
    requires
        s.len() > 0,
    ensures
        s.contains(c) == (s.drop_last().contains(c) || s.last() == c),
{
    if s.drop_last().contains(c) {
        let k = choose|k: int| 0 <= k < s.drop_last().len() && s.drop_last()[k] == c;
        assert(s[k] == c);
        assert(s.contains(c));
    }
    if s.last() == c {
        assert(s[s.len() - 1] == c);
        assert(s.contains(c));
    }
    if s.contains(c) {
        let k = choose|k: int| 0 <= k < s.len() && s[k] == c;
        if k < s.len() - 1 {
            assert(s.drop_last()[k] == c);
            assert(s.drop_last().contains(c));
        }
    }
}

/// Stripping whitespace keeps every non-whitespace character's membership.
pub proof fn lemma_strip_preserves_char(s: Seq<char>, c: char)
    requires
        !is_blank(c),
    ensures
        strip_blanks(s).contains(c) == s.contains(c),
    decreases s.len(),
{
    if s.len() > 0 {
        lemma_strip_preserves_char(s.drop_last(), c);
        lemma_contains_drop_last(s, c);
        if !is_blank(s.last()) {
            lemma_contains_drop_last(strip_blanks(s.drop_last()).push(s.last()), c);
            assert(strip_blanks(s.drop_last()).push(s.last()).drop_last() =~= strip_blanks(
                s.drop_last(),
            ));
        }
    }
}

/// A sequence without whitespace strips to itself.
pub proof fn lemma_strip_no_blanks(s: Seq<char>)
    requires
        forall|k: int| 0 <= k < s.len() ==> !is_blank(s[k]),
    ensures
        strip_blanks(s) == s,
    decreases s.len(),
{
    if s.len() > 0 {
        lemma_strip_no_blanks(s.drop_last());
        assert(strip_blanks(s.drop_last()).push(s.last()) =~= s);
    }
}

/// Stripping is idempotent: a stripped expression strips to itself.
pub proof fn lemma_strip_idempotent(s: Seq<char>)
    ensures
        strip_blanks(strip_blanks(s)) == strip_blanks(s),
    decreases s.len(),
{
    if s.len() > 0 {
        lemma_strip_idempotent(s.drop_last());
        if !is_blank(s.last()) {
            let t = strip_blanks(s.drop_last()).push(s.last());
            assert(t.drop_last() =~= strip_blanks(s.drop_last()));
            assert(strip_blanks(t) =~= strip_blanks(strip_blanks(s.drop_last())).push(s.last()));
        }
    }
}

/// Law: the compute word ignores whitespace in the expression field — the
/// word for any expression equals the word for its stripped form.
pub proof fn lemma_comp_whitespace(dest: Seq<char>, comp: Seq<char>, jump: Seq<char>)
    ensures
        c_bits(dest, comp, jump) == c_bits(dest, strip_blanks(comp), jump),
{
    lemma_strip_preserves_char(comp, 'M');
    lemma_strip_idempotent(comp);
}

/// Law: `D&M` and `M&D` yield identical compute words, for every
/// destination and jump field: both select the and-code and both set the
/// a-bit.
pub proof fn lemma_and_operand_order(dest: Seq<char>, jump: Seq<char>)
    ensures
        c_bits(dest, seq!['D', '&', 'M'], jump) == c_bits(dest, seq!['M', '&', 'D'], jump),
{
    let dm = seq!['D', '&', 'M'];
    let md = seq!['M', '&', 'D'];
    lemma_strip_no_blanks(dm);
    lemma_strip_no_blanks(md);
    assert(dm.contains('M')) by {
        assert(dm[2] == 'M');
    }
    assert(md.contains('M')) by {
        assert(md[0] == 'M');
    }
    assert(comp_code(dm) == comp_code(md));
}

/// Code generation never unbinds or changes an existing table entry:
/// variables are only ever added under fresh names.
pub proof fn lemma_generate_preserves(
    instrs: Seq<SpecInstr>,
    table: Map<Seq<char>, u16>,
    cursor: u16,
    name: Seq<char>,
)
    requires
        table.contains_key(name),
    ensures
        spec_generate(instrs, table, cursor).1.contains_key(name),
        spec_generate(instrs, table, cursor).1[name] == table[name],
    decreases instrs.len(),
{
    if instrs.len() > 0 {
        match instrs[0] {
            SpecInstr::Addr { operand } => {
                let one = a_encode(operand, table, cursor);
                lemma_generate_preserves(instrs.drop_first(), one.1, one.2, name);
            },
            _ => {
                lemma_generate_preserves(instrs.drop_first(), table, cursor, name);
            },
        }
    }
}

/// The pre-seeded table binds `SCREEN` to 16384.
pub proof fn lemma_predefined_screen()
    ensures
        predefined_table().contains_key(seq!['S', 'C', 'R', 'E', 'E', 'N']),
        predefined_table()[seq!['S', 'C', 'R', 'E', 'E', 'N']] == 16384,
{
}

/// Law: a table that binds `SCREEN` to 16384 still does after any amount
/// of code generation, and an address instruction on `SCREEN` then encodes
/// 16384, however many variables were allocated before it.
pub proof fn lemma_screen_stable(
    instrs: Seq<SpecInstr>,
    table: Map<Seq<char>, u16>,
    cursor: u16,
    cursor2: u16,
)
    requires
        table.contains_key(seq!['S', 'C', 'R', 'E', 'E', 'N']),
        table[seq!['S', 'C', 'R', 'E', 'E', 'N']] == 16384,
    ensures
        ({
            let t2 = spec_generate(instrs, table, cursor).1;
            &&& t2.contains_key(seq!['S', 'C', 'R', 'E', 'E', 'N'])
            &&& t2[seq!['S', 'C', 'R', 'E', 'E', 'N']] == 16384
            &&& a_encode(seq!['S', 'C', 'R', 'E', 'E', 'N'], t2, cursor2).0 == bin16(16384)
            &&& a_encode(seq!['S', 'C', 'R', 'E', 'E', 'N'], t2, cursor2).1 == t2
            &&& a_encode(seq!['S', 'C', 'R', 'E', 'E', 'N'], t2, cursor2).2 == cursor2
        }),
{
    let screen = seq!['S', 'C', 'R', 'E', 'E', 'N'];
    lemma_generate_preserves(instrs, table, cursor, screen);
    assert(!is_dec(screen)) by {
        assert(!is_digit(screen[0]));
    }
}

} // verus!
