//! Instruction records and their 16-bit binary encodings.
//!
//! An address instruction encodes a decimal literal, a known symbol, or a
//! fresh variable; a compute instruction packs destination, function and
//! jump fields into one word; a pseudo-instruction (label) emits nothing.
//! Every machine word is a 16-character string of `0`/`1`, most significant
//! bit first.

use vstd::prelude::*;

use crate::scan::is_blank;
use crate::scan::is_digit;
use crate::symbols::SymbolTable;

verus! {

/// Numeric value of a digit character.
pub open spec fn digit_val(c: char) -> int {
    c as int - 48
}

/// Whether `s` is a non-empty run of decimal digits.
pub open spec fn is_dec(s: Seq<char>) -> bool {
    s.len() > 0 && (forall|j: int| 0 <= j < s.len() ==> is_digit(s[j]))
}

/// The number a digit run denotes, most significant digit first.
pub open spec fn dec_val(s: Seq<char>) -> int
    decreases s.len(),
{
    if s.len() == 0 {
        0
    } else {
        dec_val(s.drop_last()) * 10 + digit_val(s.last())
    }
}

/// A digit run's value is non-negative and grows with every digit appended,
/// so no prefix exceeds the whole.
pub proof fn lemma_dec_val_prefix(s: Seq<char>, j: int)
    requires
        0 <= j <= s.len(),
        forall|k: int| 0 <= k < s.len() ==> is_digit(s[k]),
    ensures
        0 <= dec_val(s.take(j)) <= dec_val(s),
    decreases s.len(),
{
    if s.len() == 0 {
        assert(s.take(j) =~= s);
    } else if j == s.len() {
        assert(s.take(j) =~= s);
        lemma_dec_val_prefix(s.drop_last(), j - 1);
        assert(s.drop_last().take(j - 1) =~= s.drop_last());
    } else {
        lemma_dec_val_prefix(s.drop_last(), j);
        assert(s.drop_last().take(j) =~= s.take(j));
    }
}

/// Powers of two.
pub open spec fn pow2(k: nat) -> int
    decreases k,
{
    if k == 0 {
        1
    } else {
        2 * pow2((k - 1) as nat)
    }
}

/// Powers of two are positive.
pub proof fn lemma_pow2_pos(k: nat)
    ensures
        pow2(k) > 0,
    decreases k,
{
    if k > 0 {
        lemma_pow2_pos((k - 1) as nat);
    }
}

/// The 16-character binary form of `n`, most significant bit first.
pub open spec fn bin16(n: int) -> Seq<char> {
    Seq::new(
        16,
        |i: int|
            if (n / pow2((15 - i) as nat)) % 2 == 1 {
                '1'
            } else {
                '0'
            },
    )
}

/// `s` with every whitespace character removed, the rest in order.
pub open spec fn strip_blanks(s: Seq<char>) -> Seq<char>
    decreases s.len(),
{
    if s.len() == 0 {
        s
    } else if is_blank(s.last()) {
        strip_blanks(s.drop_last())
    } else {
        strip_blanks(s.drop_last()).push(s.last())
    }
}

/// The 6-bit function code a compute expression selects, whitespace already
/// stripped. `A` and `M` variants share one code: the choice between them is
/// carried by the a-bit alone. An unrecognized expression selects the
/// all-zero code silently — a deliberate fallback, not an error.
pub open spec fn comp_code(c: Seq<char>) -> Seq<char> {
    if c == seq!['0'] {
        seq!['1', '0', '1', '0', '1', '0']
    } else if c == seq!['1'] {
        seq!['1', '1', '1', '1', '1', '1']
    } else if c == seq!['-', '1'] {
        seq!['1', '1', '1', '0', '1', '0']
    } else if c == seq!['D'] {
        seq!['0', '0', '1', '1', '0', '0']
    } else if c == seq!['A'] || c == seq!['M'] {
        seq!['1', '1', '0', '0', '0', '0']
    } else if c == seq!['!', 'D'] {
        seq!['0', '0', '1', '1', '0', '1']
    } else if c == seq!['!', 'A'] || c == seq!['!', 'M'] {
        seq!['1', '1', '0', '0', '0', '1']
    } else if c == seq!['-', 'D'] {
        seq!['0', '0', '1', '1', '1', '1']
    } else if c == seq!['-', 'A'] || c == seq!['-', 'M'] {
        seq!['1', '1', '0', '0', '1', '1']
    } else if c == seq!['D', '+', '1'] {
        seq!['0', '1', '1', '1', '1', '1']
    } else if c == seq!['A', '+', '1'] || c == seq!['M', '+', '1'] {
        seq!['1', '1', '0', '1', '1', '1']
    } else if c == seq!['D', '-', '1'] {
        seq!['0', '0', '1', '1', '1', '0']
    } else if c == seq!['A', '-', '1'] || c == seq!['M', '-', '1'] {
        seq!['1', '1', '0', '0', '1', '0']
    } else if c == seq!['D', '+', 'A'] || c == seq!['D', '+', 'M'] || c == seq!['M', '+', 'D'] || c
        == seq!['A', '+', 'D'] {
        seq!['0', '0', '0', '0', '1', '0']
    } else if c == seq!['D', '-', 'A'] || c == seq!['D', '-', 'M'] {
        seq!['0', '1', '0', '0', '1', '1']
    } else if c == seq!['A', '-', 'D'] || c == seq!['M', '-', 'D'] {
        seq!['0', '0', '0', '1', '1', '1']
    } else if c == seq!['D', '&', 'A'] || c == seq!['D', '&', 'M'] || c == seq!['M', '&', 'D'] || c
        == seq!['A', '&', 'D'] {
        seq!['0', '0', '0', '0', '0', '0']
    } else if c == seq!['D', '|', 'M'] || c == seq!['M', '|', 'D'] || c == seq!['D', '|', 'A'] || c
        == seq!['A', '|', 'D'] {
        seq!['0', '1', '0', '1', '0', '1']
    } else {
        seq!['0', '0', '0', '0', '0', '0']
    }
}

/// The 3-bit jump code. An empty or unrecognized jump field selects the
/// never-jump code silently — a deliberate fallback, not an error.
pub open spec fn jump_code(j: Seq<char>) -> Seq<char> {
    if j == seq!['J', 'G', 'T'] {
        seq!['0', '0', '1']
    } else if j == seq!['J', 'E', 'Q'] {
        seq!['0', '1', '0']
    } else if j == seq!['J', 'G', 'E'] {
        seq!['0', '1', '1']
    } else if j == seq!['J', 'L', 'T'] {
        seq!['1', '0', '0']
    } else if j == seq!['J', 'N', 'E'] {
        seq!['1', '0', '1']
    } else if j == seq!['J', 'L', 'E'] {
        seq!['1', '1', '0']
    } else if j == seq!['J', 'M', 'P'] {
        seq!['1', '1', '1']
    } else {
        seq!['0', '0', '0']
    }
}

/// The whole compute word: the `111` opcode marker, the a-bit (set when the
/// expression reads the indirect operand `M`), the function code, one bit
/// for each destination register `A`, `D`, `M`, and the jump code.
pub open spec fn c_bits(dest: Seq<char>, comp: Seq<char>, jump: Seq<char>) -> Seq<char> {
    seq!['1', '1', '1'] + seq![
        if comp.contains('M') {
            '1'
        } else {
            '0'
        },
    ] + comp_code(strip_blanks(comp)) + seq![
        if dest.contains('A') {
            '1'
        } else {
            '0'
        },
        if dest.contains('D') {
            '1'
        } else {
            '0'
        },
        if dest.contains('M') {
            '1'
        } else {
            '0'
        },
    ] + jump_code(jump)
}

/// The variable cursor after an allocation; it wraps at the 16-bit
/// machine-word limit, which no program within the architecture's address
/// space ever reaches.
pub open spec fn next_cursor(c: u16) -> u16 {
    if c == 0xffff {
        0
    } else {
        (c + 1) as u16
    }
}

/// What encoding an address operand yields: the word emitted, the symbol
/// table afterwards, and the variable cursor afterwards. A digit run whose
/// value fits 16 bits encodes itself; a known symbol encodes its stored
/// address; any other operand is a fresh variable, bound to the cursor.
pub open spec fn a_encode(operand: Seq<char>, table: Map<Seq<char>, u16>, cursor: u16) -> (
    Seq<char>,
    Map<Seq<char>, u16>,
    u16,
) {
    if is_dec(operand) && dec_val(operand) < 65536 {
        (bin16(dec_val(operand)), table, cursor)
    } else if table.contains_key(operand) {
        (bin16(table[operand] as int), table, cursor)
    } else {
        (bin16(cursor as int), table.insert(operand, cursor), next_cursor(cursor))
    }
}

/// An instruction loading an address register operand: a decimal literal or
/// a symbol name.
#[derive(Debug)]
pub struct AInstruction {
    value: Vec<char>,
}

/// A label declaration: binds a name to the address of the next real
/// instruction and emits no word itself.
#[derive(Debug)]
pub struct PseudoInstruction {
    pub label: Vec<char>,
}

/// A compute instruction: destination, function expression and jump field,
/// any of which may be empty.
#[derive(Debug)]
pub struct CInstruction {
    pub dest: Vec<char>,
    pub comp: Vec<char>,
    pub jmp: Vec<char>,
}

/// One parsed instruction.
#[derive(Debug)]
pub enum Instruction {
    A(AInstruction),
    C(CInstruction),
    Pseudo(PseudoInstruction),
}

/// The mathematical form of an instruction: its fields as character
/// sequences.
pub enum SpecInstr {
    Addr { operand: Seq<char> },
    Comp { dest: Seq<char>, comp: Seq<char>, jump: Seq<char> },
    Label { name: Seq<char> },
}

impl View for AInstruction {
    type V = Seq<char>;

    closed spec fn view(&self) -> Seq<char> {
        self.value@
    }
}

impl View for Instruction {
    type V = SpecInstr;

    open spec fn view(&self) -> SpecInstr {
        match self {
            Instruction::A(a) => SpecInstr::Addr { operand: a@ },
            Instruction::C(c) => SpecInstr::Comp { dest: c.dest@, comp: c.comp@, jump: c.jmp@ },
            Instruction::Pseudo(p) => SpecInstr::Label { name: p.label@ },
        }
    }
}

/// Parses a digit run as a 16-bit number; `None` when the text is empty,
/// holds a non-digit, or exceeds 16 bits.
fn parse_decimal(v: &Vec<char>) -> (r: Option<u16>)
    ensures
        match r {
            Some(n) => is_dec(v@) && dec_val(v@) < 65536 && n == dec_val(v@),
            None => !(is_dec(v@) && dec_val(v@) < 65536),
        },
{
    if v.len() == 0 {
        return None;
    }
    let mut acc: u32 = 0;
    let mut i: usize = 0;
    while i < v.len()
        invariant
            0 <= i <= v@.len(),
            0 < v@.len(),
            forall|j: int| 0 <= j < i ==> is_digit(v@[j]),
            acc == dec_val(v@.take(i as int)),
            acc <= 65535,
        decreases v@.len() - i,
    {
        let c = v[i];
        if !('0' <= c && c <= '9') {
            return None;
        }
        let d: u32 = (c as u32) - 48;
        acc = acc * 10 + d;
        i = i + 1;
        proof {
            assert(v@.take(i as int).drop_last() =~= v@.take(i - 1));
            assert(v@.take(i as int).last() == v@[i - 1]);
        }
        if acc > 65535 {
            proof {
                if is_dec(v@) {
                    lemma_dec_val_prefix(v@, i as int);
                }
            }
            return None;
        }
    }
    proof {
        assert(v@.take(v@.len() as int) =~= v@);
    }
    Some(acc as u16)
}

/// The 16-character binary form of `v`, most significant bit first.
pub fn to_bin16(v: u16) -> (r: Vec<char>)
    ensures
        r@ == bin16(v as int),
{
    let mut r: Vec<char> = Vec::new();
    let mut d: u32 = 32768;
    let mut i: usize = 0;
    proof {
        reveal_with_fuel(pow2, 17);
        assert(pow2(15) == 32768);
    }
    while i < 16
        invariant
            0 <= i <= 16,
            r@.len() == i,
            i < 16 ==> d == pow2((15 - i) as nat),
            forall|j: int| 0 <= j < i ==> r@[j] == bin16(v as int)[j],
        decreases 16 - i,
    {
        proof {
            lemma_pow2_pos((15 - i) as nat);
        }
        let bit = (v as u32 / d) % 2;
        if bit == 1 {
            r.push('1');
        } else {
            r.push('0');
        }
        proof {
            if i < 15 {
                assert(pow2((15 - i) as nat) == 2 * pow2((14 - i) as nat));
                lemma_pow2_pos((14 - i) as nat);
            }
        }
        d = d / 2;
        i = i + 1;
    }
    proof {
        assert(r@ =~= bin16(v as int));
    }
    r
}

/// Whether `c` occurs in `v`.
fn contains_char(v: &Vec<char>, c: char) -> (r: bool)
    ensures
        r == v@.contains(c),
{
    let mut i: usize = 0;
    while i < v.len()
        invariant
            0 <= i <= v@.len(),
            forall|j: int| 0 <= j < i ==> v@[j] != c,
        decreases v@.len() - i,
    {
        if v[i] == c {
            return true;
        }
        i = i + 1;
    }
    false
}

/// `v` with every whitespace character removed.
fn strip(v: &Vec<char>) -> (r: Vec<char>)
    ensures
        r@ == strip_blanks(v@),
{
    let mut r: Vec<char> = Vec::new();
    let mut i: usize = 0;
    while i < v.len()
        invariant
            0 <= i <= v@.len(),
            r@ == strip_blanks(v@.take(i as int)),
        decreases v@.len() - i,
    {
        let c = v[i];
        if !(c == ' ' || c == '\t' || c == '\n' || c == '\r' || c == '\x0b' || c == '\x0c') {
            r.push(c);
        }
        i = i + 1;
        proof {
            assert(v@.take(i as int).drop_last() =~= v@.take(i - 1));
            assert(v@.take(i as int).last() == v@[i - 1]);
        }
    }
    proof {
        assert(v@.take(v@.len() as int) =~= v@);
    }
    r
}

/// Whether `v` is the single character `c0`.
fn eq1(v: &Vec<char>, c0: char) -> (r: bool)
    ensures
        r == (v@ == seq![c0]),
{
    let r = v.len() == 1 && v[0] == c0;
    proof {
        if r {
            assert(v@ =~= seq![c0]);
        }
    }
    r
}

/// Whether `v` is exactly the two characters `c0`, `c1`.
fn eq2(v: &Vec<char>, c0: char, c1: char) -> (r: bool)
    ensures
        r == (v@ == seq![c0, c1]),
{
    let r = v.len() == 2 && v[0] == c0 && v[1] == c1;
    proof {
        if r {
            assert(v@ =~= seq![c0, c1]);
        }
    }
    r
}

/// Whether `v` is exactly the three characters `c0`, `c1`, `c2`.
fn eq3(v: &Vec<char>, c0: char, c1: char, c2: char) -> (r: bool)
    ensures
        r == (v@ == seq![c0, c1, c2]),
{
    let r = v.len() == 3 && v[0] == c0 && v[1] == c1 && v[2] == c2;
    proof {
        if r {
            assert(v@ =~= seq![c0, c1, c2]);
        }
    }
    r
}

/// The 6-bit function code for a stripped compute expression.
fn comp_bits(c: &Vec<char>) -> (r: Vec<char>)
    ensures
        r@ == comp_code(c@),
{
    if eq1(c, '0') {
        vec!['1', '0', '1', '0', '1', '0']
    } else if eq1(c, '1') {
        vec!['1', '1', '1', '1', '1', '1']
    } else if eq2(c, '-', '1') {
        vec!['1', '1', '1', '0', '1', '0']
    } else if eq1(c, 'D') {
        vec!['0', '0', '1', '1', '0', '0']
    } else if eq1(c, 'A') || eq1(c, 'M') {
        vec!['1', '1', '0', '0', '0', '0']
    } else if eq2(c, '!', 'D') {
        vec!['0', '0', '1', '1', '0', '1']
    } else if eq2(c, '!', 'A') || eq2(c, '!', 'M') {
        vec!['1', '1', '0', '0', '0', '1']
    } else if eq2(c, '-', 'D') {
        vec!['0', '0', '1', '1', '1', '1']
    } else if eq2(c, '-', 'A') || eq2(c, '-', 'M') {
        vec!['1', '1', '0', '0', '1', '1']
    } else if eq3(c, 'D', '+', '1') {
        vec!['0', '1', '1', '1', '1', '1']
    } else if eq3(c, 'A', '+', '1') || eq3(c, 'M', '+', '1') {
        vec!['1', '1', '0', '1', '1', '1']
    } else if eq3(c, 'D', '-', '1') {
        vec!['0', '0', '1', '1', '1', '0']
    } else if eq3(c, 'A', '-', '1') || eq3(c, 'M', '-', '1') {
        vec!['1', '1', '0', '0', '1', '0']
    } else if eq3(c, 'D', '+', 'A') || eq3(c, 'D', '+', 'M') || eq3(c, 'M', '+', 'D') || eq3(
        c,
        'A',
        '+',
        'D',
    ) {
        vec!['0', '0', '0', '0', '1', '0']
    } else if eq3(c, 'D', '-', 'A') || eq3(c, 'D', '-', 'M') {
        vec!['0', '1', '0', '0', '1', '1']
    } else if eq3(c, 'A', '-', 'D') || eq3(c, 'M', '-', 'D') {
        vec!['0', '0', '0', '1', '1', '1']
    } else if eq3(c, 'D', '&', 'A') || eq3(c, 'D', '&', 'M') || eq3(c, 'M', '&', 'D') || eq3(
        c,
        'A',
        '&',
        'D',
    ) {
        vec!['0', '0', '0', '0', '0', '0']
    } else if eq3(c, 'D', '|', 'M') || eq3(c, 'M', '|', 'D') || eq3(c, 'D', '|', 'A') || eq3(
        c,
        'A',
        '|',
        'D',
    ) {
        vec!['0', '1', '0', '1', '0', '1']
    } else {
        vec!['0', '0', '0', '0', '0', '0']
    }
}

/// The 3-bit jump code for a jump field.
fn jump_bits(j: &Vec<char>) -> (r: Vec<char>)
    ensures
        r@ == jump_code(j@),
{
    if eq3(j, 'J', 'G', 'T') {
        vec!['0', '0', '1']
    } else if eq3(j, 'J', 'E', 'Q') {
        vec!['0', '1', '0']
    } else if eq3(j, 'J', 'G', 'E') {
        vec!['0', '1', '1']
    } else if eq3(j, 'J', 'L', 'T') {
        vec!['1', '0', '0']
    } else if eq3(j, 'J', 'N', 'E') {
        vec!['1', '0', '1']
    } else if eq3(j, 'J', 'L', 'E') {
        vec!['1', '1', '0']
    } else if eq3(j, 'J', 'M', 'P') {
        vec!['1', '1', '1']
    } else {
        vec!['0', '0', '0']
    }
}

impl AInstruction {
    /// An address instruction with the given operand text.
    pub fn new(value: Vec<char>) -> (a: AInstruction)
        ensures
            a@ == value@,
    {
        AInstruction { value }
    }

    /// Encodes the operand against the symbol table: a 16-bit literal
    /// encodes itself, a known symbol its address; any other operand becomes
    /// a fresh variable at the current cursor, and the next cursor value is
    /// returned alongside the word.
    pub fn machine_code(self, symbol_table: &mut SymbolTable, variable_number: u16) -> (r: (
        Vec<char>,
        u16,
    ))
        ensures
            r.0@ == a_encode(self@, old(symbol_table)@, variable_number).0,
            final(symbol_table)@ == a_encode(self@, old(symbol_table)@, variable_number).1,
            r.1 == a_encode(self@, old(symbol_table)@, variable_number).2,
    {
        match parse_decimal(&self.value) {
            Some(n) => (to_bin16(n), variable_number),
            None => {
                match symbol_table.get(&self.value) {
                    Some(addr) => (to_bin16(addr), variable_number),
                    None => {
                        let code = to_bin16(variable_number);
                        symbol_table.insert(self.value, variable_number);
                        let next: u16 = if variable_number == 0xffff {
                            0
                        } else {
                            variable_number + 1
                        };
                        (code, next)
                    },
                }
            },
        }
    }
}

impl CInstruction {
    /// A compute instruction with all three fields empty.
    pub fn new() -> (c: CInstruction)
        ensures
            c.dest@ == Seq::<char>::empty(),
            c.comp@ == Seq::<char>::empty(),
            c.jmp@ == Seq::<char>::empty(),
    {
        CInstruction { comp: vec![], jmp: vec![], dest: vec![] }
    }

    /// Packs the three fields into the 16-character compute word.
    pub fn machine_code(self) -> (r: Vec<char>)
        ensures
            r@ == c_bits(self.dest@, self.comp@, self.jmp@),
    {
        let mut r: Vec<char> = Vec::new();
        r.push('1');
        r.push('1');
        r.push('1');
        if contains_char(&self.comp, 'M') {
            r.push('1');
        } else {
            r.push('0');
        }
        let stripped = strip(&self.comp);
        let mut code = comp_bits(&stripped);
        r.append(&mut code);
        if contains_char(&self.dest, 'A') {
            r.push('1');
        } else {
            r.push('0');
        }
        if contains_char(&self.dest, 'D') {
            r.push('1');
        } else {
            r.push('0');
        }
        if contains_char(&self.dest, 'M') {
            r.push('1');
        } else {
            r.push('0');
        }
        let mut jump = jump_bits(&self.jmp);
        r.append(&mut jump);
        proof {
            assert(r@ =~= c_bits(self.dest@, self.comp@, self.jmp@));
        }
        r
    }
}

} // verus!
