//! The instruction encoder: the field tables of a compute instruction and the
//! layout of its bits.

use crate::error::AsmError;
use crate::table::{is_literal, Table, MAX_ADDRESS};
use crate::text::{find_char, first_index, lemma_first_index, split_once, str_equal, to_chars};
use vstd::prelude::*;

verus! {

/// The 7-bit code of a computation mnemonic: the operand selector in bit 6,
/// the function of the arithmetic unit in bits 5 to 0.
pub open spec fn comp_code(comp: Seq<char>) -> Option<u16> {
    if comp == "0"@ {
        Some(0b0101010u16)
    } else if comp == "1"@ {
        Some(0b0111111u16)
    } else if comp == "-1"@ {
        Some(0b0111010u16)
    } else if comp == "D"@ {
        Some(0b0001100u16)
    } else if comp == "A"@ {
        Some(0b0110000u16)
    } else if comp == "M"@ {
        Some(0b1110000u16)
    } else if comp == "!D"@ {
        Some(0b0001101u16)
    } else if comp == "!A"@ {
        Some(0b0110001u16)
    } else if comp == "!M"@ {
        Some(0b1110001u16)
    } else if comp == "-D"@ {
        Some(0b0001111u16)
    } else if comp == "-A"@ {
        Some(0b0110011u16)
    } else if comp == "-M"@ {
        Some(0b1110011u16)
    } else if comp == "D+1"@ {
        Some(0b0011111u16)
    } else if comp == "A+1"@ {
        Some(0b0110111u16)
    } else if comp == "M+1"@ {
        Some(0b1110111u16)
    } else if comp == "D-1"@ {
        Some(0b0001110u16)
    } else if comp == "A-1"@ {
        Some(0b0110010u16)
    } else if comp == "M-1"@ {
        Some(0b1110010u16)
    } else if comp == "D+A"@ {
        Some(0b0000010u16)
    } else if comp == "D+M"@ {
        Some(0b1000010u16)
    } else if comp == "D-A"@ {
        Some(0b0010011u16)
    } else if comp == "D-M"@ {
        Some(0b1010011u16)
    } else if comp == "A-D"@ {
        Some(0b0000111u16)
    } else if comp == "M-D"@ {
        Some(0b1000111u16)
    } else if comp == "D&A"@ {
        Some(0b0000000u16)
    } else if comp == "D&M"@ {
        Some(0b1000000u16)
    } else if comp == "D|A"@ {
        Some(0b0010101u16)
    } else if comp == "D|M"@ {
        Some(0b1010101u16)
    } else {
        None
    }
}

/// The 3-bit code of a destination mnemonic; anything else stores nowhere.
pub open spec fn dest_code(dest: Seq<char>) -> u16 {
    if dest == "M"@ {
        1
    } else if dest == "D"@ {
        2
    } else if dest == "MD"@ || dest == "DM"@ {
        3
    } else if dest == "A"@ {
        4
    } else if dest == "AM"@ {
        5
    } else if dest == "AD"@ {
        6
    } else if dest == "AMD"@ || dest == "ADM"@ {
        7
    } else {
        0
    }
}

/// The 3-bit code of a jump mnemonic; anything else never jumps.
pub open spec fn jump_code(jump: Seq<char>) -> u16 {
    if jump == "JGT"@ {
        1
    } else if jump == "JEQ"@ {
        2
    } else if jump == "JGE"@ {
        3
    } else if jump == "JLT"@ {
        4
    } else if jump == "JNE"@ {
        5
    } else if jump == "JLE"@ {
        6
    } else if jump == "JMP"@ {
        7
    } else {
        0
    }
}

/// The name a label line declares: the line without its parentheses.
pub open spec fn label_name(line: Seq<char>) -> Seq<char>
    decreases line.len(),
{
    if line.len() == 0 {
        line
    } else if line.last() == '(' || line.last() == ')' {
        label_name(line.drop_last())
    } else {
        label_name(line.drop_last()).push(line.last())
    }
}

/// The word of a compute instruction: three leading ones, then the
/// computation in bits 12 to 6, the destination in bits 5 to 3 and the jump in
/// bits 2 to 0.
pub open spec fn compute_word(comp: u16, dest: u16, jump: u16) -> u16 {
    0xE000u16 | (comp << 6) | (dest << 3) | jump
}

/// The fields `(comp, dest, jump)` of a line `[dest=]comp[;jump]`.
///
/// The jump is what follows the `;` when the line holds exactly one; the part
/// before the first `;` holds destination and computation around its `=` when
/// it holds exactly one, and is the computation as a whole otherwise.
pub open spec fn split_fields(line: Seq<char>) -> (Seq<char>, Seq<char>, Seq<char>) {
    let head = line.take(first_index(line, ';'));
    let jump = match split_once(line, ';') {
        Some(around) => around.1,
        None => Seq::empty(),
    };
    match split_once(head, '=') {
        Some(around) => (around.1, around.0, jump),
        None => (head, Seq::empty(), jump),
    }
}

/// The word a compute instruction line stands for.
pub open spec fn encode_compute(line: Seq<char>) -> Result<u16, AsmError> {
    let (comp, dest, jump) = split_fields(line);
    match comp_code(comp) {
        Some(bits) => Ok(compute_word(bits, dest_code(dest), jump_code(jump))),
        None => Err(AsmError::UnknownComputation),
    }
}

/// Every computation code fits in 7 bits and is not all ones.
pub proof fn lemma_comp_code_range(comp: Seq<char>)
    ensures
        comp_code(comp) matches Some(bits) ==> bits < 127,
{
}

/// Every destination code fits in 3 bits.
pub proof fn lemma_dest_code_range(dest: Seq<char>)
    ensures
        dest_code(dest) < 8,
{
}

/// Every jump code fits in 3 bits.
pub proof fn lemma_jump_code_range(jump: Seq<char>)
    ensures
        jump_code(jump) < 8,
{
}

/// The word of a compute instruction is never all ones.
pub proof fn lemma_encode_compute_range(line: Seq<char>)
    ensures
        encode_compute(line) matches Ok(word) ==> word >= 0xE000 && word != 0xFFFF,
{
    let (comp, dest, jump) = split_fields(line);
    lemma_comp_code_range(comp);
    lemma_dest_code_range(dest);
    lemma_jump_code_range(jump);
    if let Some(bits) = comp_code(comp) {
        lemma_compute_word_layout(bits, dest_code(dest), jump_code(jump));
    }
}

/// With each field in its range, the word starts with three ones and each
/// field can be read back from its bits.
pub proof fn lemma_compute_word_layout(comp: u16, dest: u16, jump: u16)
    requires
        comp < 128,
        dest < 8,
        jump < 8,
    ensures
        compute_word(comp, dest, jump) >> 13 == 7,
        (compute_word(comp, dest, jump) >> 6) & 0x7F == comp,
        (compute_word(comp, dest, jump) >> 3) & 7 == dest,
        compute_word(comp, dest, jump) & 7 == jump,
        compute_word(comp, dest, jump) == 0xE000 + 64 * comp + 8 * dest + jump,
{
    assert((0xE000u16 | (comp << 6) | (dest << 3) | jump) >> 13 == 7) by (bit_vector)
        requires
            comp < 128,
            dest < 8,
            jump < 8,
    ;
    assert(((0xE000u16 | (comp << 6) | (dest << 3) | jump) >> 6) & 0x7F == comp) by (bit_vector)
        requires
            comp < 128,
            dest < 8,
            jump < 8,
    ;
    assert(((0xE000u16 | (comp << 6) | (dest << 3) | jump) >> 3) & 7 == dest) by (bit_vector)
        requires
            comp < 128,
            dest < 8,
            jump < 8,
    ;
    assert((0xE000u16 | (comp << 6) | (dest << 3) | jump) & 7 == jump) by (bit_vector)
        requires
            comp < 128,
            dest < 8,
            jump < 8,
    ;
    assert((0xE000u16 | (comp << 6) | (dest << 3) | jump) == 0xE000 + 64 * comp + 8 * dest + jump)
        by (bit_vector)
        requires
            comp < 128,
            dest < 8,
            jump < 8,
    ;
}

/// Looks a computation mnemonic up in the table.
pub fn create_comp(comp: &str) -> (code: Result<u16, AsmError>)
    ensures
        code == match comp_code(comp@) {
            Some(bits) => Ok::<u16, AsmError>(bits),
            None => Err(AsmError::UnknownComputation),
        },
{
    if str_equal(comp, "0") {
        Ok(0b0101010)
    } else if str_equal(comp, "1") {
        Ok(0b0111111)
    } else if str_equal(comp, "-1") {
        Ok(0b0111010)
    } else if str_equal(comp, "D") {
        Ok(0b0001100)
    } else if str_equal(comp, "A") {
        Ok(0b0110000)
    } else if str_equal(comp, "M") {
        Ok(0b1110000)
    } else if str_equal(comp, "!D") {
        Ok(0b0001101)
    } else if str_equal(comp, "!A") {
        Ok(0b0110001)
    } else if str_equal(comp, "!M") {
        Ok(0b1110001)
    } else if str_equal(comp, "-D") {
        Ok(0b0001111)
    } else if str_equal(comp, "-A") {
        Ok(0b0110011)
    } else if str_equal(comp, "-M") {
        Ok(0b1110011)
    } else if str_equal(comp, "D+1") {
        Ok(0b0011111)
    } else if str_equal(comp, "A+1") {
        Ok(0b0110111)
    } else if str_equal(comp, "M+1") {
        Ok(0b1110111)
    } else if str_equal(comp, "D-1") {
        Ok(0b0001110)
    } else if str_equal(comp, "A-1") {
        Ok(0b0110010)
    } else if str_equal(comp, "M-1") {
        Ok(0b1110010)
    } else if str_equal(comp, "D+A") {
        Ok(0b0000010)
    } else if str_equal(comp, "D+M") {
        Ok(0b1000010)
    } else if str_equal(comp, "D-A") {
        Ok(0b0010011)
    } else if str_equal(comp, "D-M") {
        Ok(0b1010011)
    } else if str_equal(comp, "A-D") {
        Ok(0b0000111)
    } else if str_equal(comp, "M-D") {
        Ok(0b1000111)
    } else if str_equal(comp, "D&A") {
        Ok(0b0000000)
    } else if str_equal(comp, "D&M") {
        Ok(0b1000000)
    } else if str_equal(comp, "D|A") {
        Ok(0b0010101)
    } else if str_equal(comp, "D|M") {
        Ok(0b1010101)
    } else {
        Err(AsmError::UnknownComputation)
    }
}

/// Looks a destination mnemonic up in the table; an unknown one gives 0.
pub fn create_dest(dest: &str) -> (code: u16)
    ensures
        code == dest_code(dest@),
{
    if str_equal(dest, "M") {
        1
    } else if str_equal(dest, "D") {
        2
    } else if str_equal(dest, "MD") || str_equal(dest, "DM") {
        3
    } else if str_equal(dest, "A") {
        4
    } else if str_equal(dest, "AM") {
        5
    } else if str_equal(dest, "AD") {
        6
    } else if str_equal(dest, "AMD") || str_equal(dest, "ADM") {
        7
    } else {
        0
    }
}

/// Looks a jump mnemonic up in the table; an unknown one gives 0.
pub fn create_jmp(jmp: &str) -> (code: u16)
    ensures
        code == jump_code(jmp@),
{
    if str_equal(jmp, "JGT") {
        1
    } else if str_equal(jmp, "JEQ") {
        2
    } else if str_equal(jmp, "JGE") {
        3
    } else if str_equal(jmp, "JLT") {
        4
    } else if str_equal(jmp, "JNE") {
        5
    } else if str_equal(jmp, "JLE") {
        6
    } else if str_equal(jmp, "JMP") {
        7
    } else {
        0
    }
}

/// Packs three field codes into the word of a compute instruction.
pub fn combine_c(comp: u16, dest: u16, jmp: u16) -> (word: u16)
    ensures
        word == compute_word(comp, dest, jmp),
{
    0xE000u16 | (comp << 6) | (dest << 3) | jmp
}

/// Encodes the three fields of a compute instruction.
pub fn c_command_output(comp: &str, dest: &str, jmp: &str) -> (word: Result<u16, AsmError>)
    ensures
        word == match comp_code(comp@) {
            Some(bits) => Ok::<u16, AsmError>(compute_word(bits, dest_code(dest@), jump_code(jmp@))),
            None => Err(AsmError::UnknownComputation),
        },
{
    match create_comp(comp) {
        Ok(comp_section) => {
            let dest_section = create_dest(dest);
            let jmp_section = create_jmp(jmp);
            Ok(combine_c(comp_section, dest_section, jmp_section))
        },
        Err(e) => Err(e),
    }
}

/// Cuts a compute instruction line into `(comp, dest, jump)`.
pub fn split_c_command<'a>(val: &'a str) -> (fields: (&'a str, &'a str, &'a str))
    ensures
        (fields.0@, fields.1@, fields.2@) == split_fields(val@),
{
    let chars = to_chars(val);
    let n = chars.len();
    let semi = find_char(&chars, 0, n, ';');
    let eq = find_char(&chars, 0, semi, '=');
    proof {
        reveal_strlit("");
        assert(chars@.subrange(0, n as int) =~= val@);
        if semi < n {
            lemma_first_index(val@.skip(semi + 1), ';');
        }
        if eq < semi {
            assert(chars@.subrange(eq + 1, semi as int) =~= val@.take(semi as int).skip(eq + 1));
            lemma_first_index(val@.take(semi as int).skip(eq + 1), '=');
        }
    }
    let jmp: &str = if semi < n && find_char(&chars, semi + 1, n, ';') == n {
        val.substring_char(semi + 1, n)
    } else {
        ""
    };
    if eq < semi && find_char(&chars, eq + 1, semi, '=') == semi {
        (val.substring_char(eq + 1, semi), val.substring_char(0, eq), jmp)
    } else {
        (val.substring_char(0, semi), "", jmp)
    }
}

/// Encodes a compute instruction line.
pub fn c_command(val: &str) -> (word: Result<u16, AsmError>)
    ensures
        word == encode_compute(val@),
{
    let (comp, dest, jmp) = split_c_command(val);
    c_command_output(comp, dest, jmp)
}

/// The word of an address instruction: a zero in bit 15, the address in bits
/// 14 to 0.
pub fn encode_address(value: u16) -> (word: u16)
    requires
        value <= MAX_ADDRESS,
    ensures
        word == value,
        word & 0x8000 == 0,
        word & 0x7FFF == value,
{
    assert(value & 0x8000 == 0 && value & 0x7FFF == value) by (bit_vector)
        requires
            value <= 32767,
    ;
    value
}

/// Encodes an address instruction line: resolves what follows its first
/// character, binding a new variable where the symbol is unbound.
pub fn a_command(input: &str, table: &mut Table) -> (word: Result<u16, AsmError>)
    requires
        old(table).wf(),
        input@.len() > 0,
    ensures
        (word, final(table)@) == old(table)@.resolve(input@.drop_first()),
        is_literal(input@.drop_first()) || old(table)@.bound.contains_key(input@.drop_first())
            || word is Err ==> *final(table) == *old(table),
        final(table).wf(),
        word matches Ok(value) ==> value <= MAX_ADDRESS,
{
    let n = input.unicode_len();
    let token = input.substring_char(1, n);
    match table.resolve_or_allocate(token) {
        Ok(address) => Ok(encode_address(address)),
        Err(e) => Err(e),
    }
}

/// Declares the label of a label line at the instruction address `line_num`.
pub fn first_pass_l(line: &str, line_num: &mut u16, table: &mut Table)
    requires
        old(table).wf(),
        *old(line_num) <= MAX_ADDRESS,
    ensures
        final(table)@ == old(table)@.declare(label_name(line@), *old(line_num)),
        final(table).wf(),
        *final(line_num) == *old(line_num),
{
    let chars = to_chars(line);
    let n = chars.len();
    let mut name = String::new();
    let mut i: usize = 0;
    while i < n
        invariant
            i <= n,
            n == chars.len(),
            chars@ == line@,
            name@ == label_name(line@.take(i as int)),
        decreases n - i,
    {
        let c = chars[i];
        assert(line@.take(i + 1).drop_last() =~= line@.take(i as int));
        if c != '(' && c != ')' {
            let piece = line.substring_char(i, i + 1);
            name.append(piece);
        }
        i += 1;
    }
    assert(line@.take(n as int) =~= line@);
    table.insert(name, *line_num);
}

/// The address bound to `val`, or 0 when `val` is unbound.
pub fn l_command(val: &str, table: &mut Table) -> (address: u16)
    ensures
        address == old(table)@.address_of(val@),
        *final(table) == *old(table),
{
    table.get_addr(val)
}

} // verus!
