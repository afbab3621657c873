//! What holds of every program: how labels and variables get their addresses,
//! and that a translation depends on nothing but the lines.

use crate::code::{comp_code, label_name, lemma_encode_compute_range, split_fields};
use crate::error::AsmError;
use crate::parser::{
    assemble_lines, first_pass, instruction_count, is_address, is_label, second_pass, translate,
};
use crate::table::{
    is_literal, lemma_initial_valid, lemma_resolve_valid, literal_value, predefined, Symbols,
    FIRST_VARIABLE, MAX_ADDRESS,
};
use crate::text::views;
use vstd::prelude::*;

verus! {

/// A literal above `MAX_ADDRESS` is refused with `Overflow` whatever the table
/// holds, and nothing else is.
pub proof fn overflow_exactly_above_max(symbols: Symbols, token: Seq<char>)
    ensures
        symbols.resolve(token).0 == Err::<u16, AsmError>(AsmError::Overflow) <==> is_literal(token)
            && literal_value(token) > MAX_ADDRESS,
        is_literal(token) && literal_value(token) <= MAX_ADDRESS ==> symbols.resolve(token) == (
            Ok::<u16, AsmError>(literal_value(token) as u16),
            symbols,
        ),
{
}

/// Resolving a token a second time gives what the first time gave, and
/// changes nothing.
pub proof fn resolve_twice_is_resolve_once(symbols: Symbols, token: Seq<char>)
    ensures
        ({
            let (first, after) = symbols.resolve(token);
            after.resolve(token) == (first, after)
        }),
{
}

/// An unbound symbol becomes the next variable: the first one of a run is at
/// `FIRST_VARIABLE`, and each one moves the counter up by one.
pub proof fn unbound_symbol_takes_next_address(symbols: Symbols, token: Seq<char>)
    requires
        !is_literal(token),
        !symbols.bound.contains_key(token),
        symbols.next <= MAX_ADDRESS,
    ensures
        symbols.resolve(token).0 == Ok::<u16, AsmError>(symbols.next as u16),
        symbols.resolve(token).1.next == symbols.next + 1,
        symbols.resolve(token).1.bound == symbols.bound.insert(token, symbols.next as u16),
        Symbols::initial().next == FIRST_VARIABLE,
{
}

/// The addresses of the predefined names.
pub proof fn predefined_addresses()
    ensures
        predefined().dom().finite(),
        predefined().len() == 23,
        predefined()["SP"@] == 0,
        predefined()["LCL"@] == 1,
        predefined()["ARG"@] == 2,
        predefined()["THIS"@] == 3,
        predefined()["THAT"@] == 4,
        predefined()["R0"@] == 0,
        predefined()["R1"@] == 1,
        predefined()["R2"@] == 2,
        predefined()["R3"@] == 3,
        predefined()["R4"@] == 4,
        predefined()["R5"@] == 5,
        predefined()["R6"@] == 6,
        predefined()["R7"@] == 7,
        predefined()["R8"@] == 8,
        predefined()["R9"@] == 9,
        predefined()["R10"@] == 10,
        predefined()["R11"@] == 11,
        predefined()["R12"@] == 12,
        predefined()["R13"@] == 13,
        predefined()["R14"@] == 14,
        predefined()["R15"@] == 15,
        predefined()["SCREEN"@] == 16384,
        predefined()["KBD"@] == 24576,
{
    reveal_strlit("SP");
    reveal_strlit("LCL");
    reveal_strlit("ARG");
    reveal_strlit("THIS");
    reveal_strlit("THAT");
    reveal_strlit("R0");
    reveal_strlit("R1");
    reveal_strlit("R2");
    reveal_strlit("R3");
    reveal_strlit("R4");
    reveal_strlit("R5");
    reveal_strlit("R6");
    reveal_strlit("R7");
    reveal_strlit("R8");
    reveal_strlit("R9");
    reveal_strlit("R10");
    reveal_strlit("R11");
    reveal_strlit("R12");
    reveal_strlit("R13");
    reveal_strlit("R14");
    reveal_strlit("R15");
    reveal_strlit("SCREEN");
    reveal_strlit("KBD");
    // One character of each name that tells it from the others of its length.
    assert("SP"@.len() == 2 && "SP"@[0] == 'S');
    assert("LCL"@.len() == 3 && "LCL"@[0] == 'L');
    assert("ARG"@.len() == 3 && "ARG"@[0] == 'A');
    assert("THIS"@.len() == 4 && "THIS"@[2] == 'I');
    assert("THAT"@.len() == 4 && "THAT"@[2] == 'A');
    assert("R0"@.len() == 2 && "R0"@[1] == '0');
    assert("R1"@.len() == 2 && "R1"@[1] == '1');
    assert("R2"@.len() == 2 && "R2"@[1] == '2');
    assert("R3"@.len() == 2 && "R3"@[1] == '3');
    assert("R4"@.len() == 2 && "R4"@[1] == '4');
    assert("R5"@.len() == 2 && "R5"@[1] == '5');
    assert("R6"@.len() == 2 && "R6"@[1] == '6');
    assert("R7"@.len() == 2 && "R7"@[1] == '7');
    assert("R8"@.len() == 2 && "R8"@[1] == '8');
    assert("R9"@.len() == 2 && "R9"@[1] == '9');
    assert("R10"@.len() == 3 && "R10"@[2] == '0');
    assert("R11"@.len() == 3 && "R11"@[2] == '1');
    assert("R12"@.len() == 3 && "R12"@[2] == '2');
    assert("R13"@.len() == 3 && "R13"@[2] == '3');
    assert("R14"@.len() == 3 && "R14"@[2] == '4');
    assert("R15"@.len() == 3 && "R15"@[2] == '5');
    assert("SCREEN"@.len() == 6 && "SCREEN"@[0] == 'S');
    assert("KBD"@.len() == 3 && "KBD"@[0] == 'K');
}

/// A predefined name is no literal, so in a fresh table it resolves to its
/// predefined address and leaves the table as it is.
pub proof fn predefined_names_resolve(name: Seq<char>)
    requires
        predefined().contains_key(name),
    ensures
        !is_literal(name),
        Symbols::initial().resolve(name) == (
            Ok::<u16, AsmError>(predefined()[name]),
            Symbols::initial(),
        ),
{
    reveal_strlit("SP");
    reveal_strlit("LCL");
    reveal_strlit("ARG");
    reveal_strlit("THIS");
    reveal_strlit("THAT");
    reveal_strlit("R0");
    reveal_strlit("R1");
    reveal_strlit("R2");
    reveal_strlit("R3");
    reveal_strlit("R4");
    reveal_strlit("R5");
    reveal_strlit("R6");
    reveal_strlit("R7");
    reveal_strlit("R8");
    reveal_strlit("R9");
    reveal_strlit("R10");
    reveal_strlit("R11");
    reveal_strlit("R12");
    reveal_strlit("R13");
    reveal_strlit("R14");
    reveal_strlit("R15");
    reveal_strlit("SCREEN");
    reveal_strlit("KBD");
    assert(name.len() > 0 && name[0] != '+' && !('0' <= name[0] <= '9'));
}

/// The word of an address instruction has a zero in bit 15, that of a compute
/// instruction ones in bits 15 to 13; no word is all ones.
pub proof fn word_shows_its_kind(line: Seq<char>, symbols: Symbols)
    requires
        symbols.valid(),
    ensures
        translate(line, symbols).0 matches Ok(Some(word)) ==> word != 0xFFFF && if is_address(
            line,
        ) {
            word <= MAX_ADDRESS
        } else {
            word >= 0xE000
        },
        translate(line, symbols).0 matches Ok(None) ==> is_label(line),
{
    if is_address(line) {
        lemma_resolve_valid(symbols, line.drop_first());
    } else {
        lemma_encode_compute_range(line);
    }
}

/// Both passes keep a table valid: every address that they bind lies in
/// `0..=MAX_ADDRESS`.
pub proof fn passes_keep_table_valid(lines: Seq<Seq<char>>, symbols: Symbols)
    requires
        symbols.valid(),
    ensures
        first_pass(lines, symbols).1.valid(),
        second_pass(lines, symbols).1.valid(),
    decreases lines.len(),
{
    if lines.len() > 0 {
        passes_keep_table_valid(lines.drop_last(), symbols);
    }
}

/// The first pass binds labels and nothing else: the variable counter stays.
pub proof fn first_pass_keeps_counter(lines: Seq<Seq<char>>, symbols: Symbols)
    ensures
        first_pass(lines, symbols).1.next == symbols.next,
    decreases lines.len(),
{
    if lines.len() > 0 {
        first_pass_keeps_counter(lines.drop_last(), symbols);
    }
}

/// A label is bound to the number of instructions before it, unless a later
/// line declares the same name again.
pub proof fn label_binds_to_instruction_count(lines: Seq<Seq<char>>, symbols: Symbols, i: int)
    requires
        0 <= i < lines.len(),
        is_label(lines[i]),
        forall|j: int|
            i < j < lines.len() && is_label(lines[j]) ==> label_name(#[trigger] lines[j])
                != label_name(lines[i]),
        first_pass(lines, symbols).0 is Ok,
    ensures
        first_pass(lines, symbols).1.bound.contains_key(label_name(lines[i])),
        first_pass(lines, symbols).1.bound[label_name(lines[i])] == instruction_count(
            lines.take(i),
        ),
    decreases lines.len(),
{
    let shorter = lines.drop_last();
    if i < lines.len() - 1 {
        assert(shorter.take(i) =~= lines.take(i));
        label_binds_to_instruction_count(shorter, symbols, i);
    }
}

/// The second pass never rebinds a name: what is bound before it is bound to
/// the same address after it.
pub proof fn second_pass_keeps_bindings(lines: Seq<Seq<char>>, symbols: Symbols, name: Seq<char>)
    requires
        symbols.bound.contains_key(name),
    ensures
        second_pass(lines, symbols).1.bound.contains_key(name),
        second_pass(lines, symbols).1.bound[name] == symbols.bound[name],
    decreases lines.len(),
{
    if lines.len() > 0 {
        second_pass_keeps_bindings(lines.drop_last(), symbols, name);
    }
}

/// A successful second pass emits one word for each instruction.
pub proof fn one_word_per_instruction(lines: Seq<Seq<char>>, symbols: Symbols)
    ensures
        second_pass(lines, symbols).0 matches Ok(words) ==> words.len() == instruction_count(lines),
    decreases lines.len(),
{
    if lines.len() > 0 {
        one_word_per_instruction(lines.drop_last(), symbols);
    }
}

/// The second pass over the first `k` lines of a program that it translates:
/// it succeeds, its words are the first words of the program, and its
/// bindings are kept to the end.
pub proof fn second_pass_of_prefix(lines: Seq<Seq<char>>, symbols: Symbols, k: int)
    requires
        0 <= k <= lines.len(),
        second_pass(lines, symbols).0 is Ok,
    ensures
        second_pass(lines.take(k), symbols).0 is Ok,
        ({
            let words = second_pass(lines, symbols).0->Ok_0;
            let first = second_pass(lines.take(k), symbols).0->Ok_0;
            first.len() == instruction_count(lines.take(k)) && first.len() <= words.len()
                && words.take(first.len() as int) == first
        }),
        forall|name: Seq<char>| #[trigger]
            second_pass(lines.take(k), symbols).1.bound.contains_key(name) ==> second_pass(
                lines,
                symbols,
            ).1.bound.contains_key(name) && second_pass(lines, symbols).1.bound[name]
                == second_pass(lines.take(k), symbols).1.bound[name],
    decreases lines.len(),
{
    one_word_per_instruction(lines.take(k), symbols);
    if k == lines.len() {
        assert(lines.take(k) =~= lines);
    } else {
        let shorter = lines.drop_last();
        assert(shorter.take(k) =~= lines.take(k));
        second_pass_of_prefix(shorter, symbols, k);
    }
}

/// The word of an address instruction that names a symbol is the address the
/// symbol is bound to when the second pass ends.
pub proof fn symbol_word_is_final_binding(lines: Seq<Seq<char>>, symbols: Symbols, j: int)
    requires
        0 <= j < lines.len(),
        is_address(lines[j]),
        !is_literal(lines[j].drop_first()),
        second_pass(lines, symbols).0 is Ok,
    ensures
        instruction_count(lines.take(j)) < second_pass(lines, symbols).0->Ok_0.len(),
        second_pass(lines, symbols).1.bound.contains_key(lines[j].drop_first()),
        second_pass(lines, symbols).0->Ok_0[instruction_count(lines.take(j)) as int]
            == second_pass(lines, symbols).1.bound[lines[j].drop_first()],
{
    let token = lines[j].drop_first();
    let upto = lines.take(j + 1);
    assert(upto.drop_last() =~= lines.take(j));
    second_pass_of_prefix(lines, symbols, j + 1);
    one_word_per_instruction(lines.take(j), symbols);
    let first = second_pass(upto, symbols).0->Ok_0;
    let after = second_pass(upto, symbols).1;
    assert(after.bound.contains_key(token));
    assert(first.last() == after.bound[token]);
}

/// A reference to a label, before or after the line that declares it, is
/// translated to the number of instructions before that line.
///
/// This holds of the last line that declares the name, and of a name that is
/// not an integer literal.
pub proof fn reference_resolves_to_label(lines: Seq<Seq<char>>, i: int, j: int)
    requires
        0 <= i < lines.len(),
        is_label(lines[i]),
        forall|later: int|
            i < later < lines.len() && is_label(lines[later]) ==> label_name(
                #[trigger] lines[later],
            ) != label_name(lines[i]),
        0 <= j < lines.len(),
        is_address(lines[j]),
        lines[j].drop_first() == label_name(lines[i]),
        !is_literal(label_name(lines[i])),
        assemble_lines(lines) is Ok,
    ensures
        instruction_count(lines.take(j)) < assemble_lines(lines)->Ok_0.len(),
        assemble_lines(lines)->Ok_0[instruction_count(lines.take(j)) as int] == instruction_count(
            lines.take(i),
        ),
{
    let labelled = first_pass(lines, Symbols::initial()).1;
    label_binds_to_instruction_count(lines, Symbols::initial(), i);
    second_pass_keeps_bindings(lines, labelled, label_name(lines[i]));
    symbol_word_is_final_binding(lines, labelled, j);
}

/// The symbols that the second pass meets unbound, each once, in the order in
/// which it meets them first.
pub open spec fn new_variables(lines: Seq<Seq<char>>, bound: Set<Seq<char>>) -> Seq<Seq<char>>
    decreases lines.len(),
{
    if lines.len() == 0 {
        Seq::empty()
    } else {
        let earlier = new_variables(lines.drop_last(), bound);
        if is_address(lines.last()) && !is_literal(lines.last().drop_first()) && !bound.contains(
            lines.last().drop_first(),
        ) && !earlier.contains(lines.last().drop_first()) {
            earlier.push(lines.last().drop_first())
        } else {
            earlier
        }
    }
}

/// Variables get consecutive addresses in the order of their first use: the
/// `k`-th symbol that the second pass meets unbound is bound to the `k`-th
/// address from the counter on, and the names bound in the end are those bound
/// at the start and these.
pub proof fn variables_in_order_of_first_use(lines: Seq<Seq<char>>, symbols: Symbols)
    requires
        second_pass(lines, symbols).0 is Ok,
    ensures
        ({
            let after = second_pass(lines, symbols).1;
            let variables = new_variables(lines, symbols.bound.dom());
            &&& after.next == symbols.next + variables.len()
            &&& after.next <= MAX_ADDRESS + 1 || variables.len() == 0
            &&& forall|name: Seq<char>|
                #![trigger after.bound.contains_key(name)]
                #![trigger variables.contains(name)]
                after.bound.contains_key(name) <==> symbols.bound.contains_key(name)
                    || variables.contains(name)
            &&& forall|k: int|
                0 <= k < variables.len() ==> after.bound.contains_key(#[trigger] variables[k])
                    && after.bound[variables[k]] == symbols.next + k
        }),
    decreases lines.len(),
{
    if lines.len() > 0 {
        let shorter = lines.drop_last();
        variables_in_order_of_first_use(shorter, symbols);
        let before = second_pass(shorter, symbols).1;
        let after = second_pass(lines, symbols).1;
        let earlier = new_variables(shorter, symbols.bound.dom());
        let variables = new_variables(lines, symbols.bound.dom());
        if variables != earlier {
            let token = lines.last().drop_first();
            assert forall|name: Seq<char>|
                #![trigger after.bound.contains_key(name)]
                #![trigger variables.contains(name)]
                after.bound.contains_key(name) <==> symbols.bound.contains_key(name)
                    || variables.contains(name) by {
                if name == token {
                    assert(variables[earlier.len() as int] == token);
                } else if earlier.contains(name) {
                    let at = choose|at: int| 0 <= at < earlier.len() && earlier[at] == name;
                    assert(variables[at] == name);
                } else if variables.contains(name) {
                    let at = choose|at: int| 0 <= at < variables.len() && variables[at] == name;
                    assert(earlier[at] == name);
                }
            }
            assert forall|k: int| 0 <= k < variables.len() implies after.bound.contains_key(
                #[trigger] variables[k],
            ) && after.bound[variables[k]] == symbols.next + k by {
                if k < earlier.len() {
                    assert(earlier.contains(earlier[k]));
                }
            }
        }
    }
}

/// In a whole program the first variable is at `FIRST_VARIABLE`, the next one
/// address higher, and so on in the order of first use; a variable is a symbol
/// that no label and no predefined name binds.
pub proof fn variables_start_at_first_variable(lines: Seq<Seq<char>>, k: int)
    requires
        assemble_lines(lines) is Ok,
        0 <= k < new_variables(lines, first_pass(lines, Symbols::initial()).1.bound.dom()).len(),
    ensures
        ({
            let labelled = first_pass(lines, Symbols::initial()).1;
            let variables = new_variables(lines, labelled.bound.dom());
            second_pass(lines, labelled).1.bound.contains_key(variables[k]) && second_pass(
                lines,
                labelled,
            ).1.bound[variables[k]] == FIRST_VARIABLE + k
        }),
{
    let labelled = first_pass(lines, Symbols::initial()).1;
    first_pass_keeps_counter(lines, Symbols::initial());
    variables_in_order_of_first_use(lines, labelled);
}

/// The first pass succeeds on the programs whose every line has at most
/// `MAX_ADDRESS` instructions before it, and fails on the others with
/// `AddressSpaceExhausted`.
pub proof fn first_pass_succeeds_exactly_when(lines: Seq<Seq<char>>, symbols: Symbols)
    ensures
        first_pass(lines, symbols).0 is Ok <==> forall|i: int|
            0 <= i < lines.len() ==> instruction_count(#[trigger] lines.take(i)) <= MAX_ADDRESS,
        first_pass(lines, symbols).0 matches Err(e) ==> e == AsmError::AddressSpaceExhausted,
    decreases lines.len(),
{
    if lines.len() > 0 {
        let shorter = lines.drop_last();
        first_pass_succeeds_exactly_when(shorter, symbols);
        assert(shorter =~= lines.take(lines.len() - 1));
        assert forall|i: int| 0 <= i < shorter.len() implies #[trigger] shorter.take(i)
            == lines.take(i) by {
            assert(shorter.take(i) =~= lines.take(i));
        }
        if first_pass(shorter, symbols).0 is Err {
            let i = choose|i: int|
                0 <= i < shorter.len() && instruction_count(#[trigger] shorter.take(i))
                    > MAX_ADDRESS;
            assert(instruction_count(lines.take(i)) > MAX_ADDRESS);
        } else if first_pass(lines, symbols).0 is Ok {
            assert forall|i: int| 0 <= i < lines.len() implies instruction_count(
                #[trigger] lines.take(i),
            ) <= MAX_ADDRESS by {
                if i < shorter.len() {
                    assert(shorter.take(i) == lines.take(i));
                }
            }
        }
    }
}

/// Whether a line can be translated whatever the table holds: an address
/// instruction whose literal, if it has one, is in range, a label, or a
/// compute instruction with a known computation.
pub open spec fn translatable(line: Seq<char>) -> bool {
    if is_address(line) {
        is_literal(line.drop_first()) ==> literal_value(line.drop_first()) <= MAX_ADDRESS
    } else if is_label(line) {
        true
    } else {
        comp_code(split_fields(line).0) is Some
    }
}

/// The second pass succeeds on the programs whose every line can be
/// translated and whose new variables all find an address.
pub proof fn second_pass_succeeds_exactly_when(lines: Seq<Seq<char>>, symbols: Symbols)
    requires
        symbols.valid(),
    ensures
        second_pass(lines, symbols).0 is Ok <==> (forall|j: int|
            0 <= j < lines.len() ==> translatable(#[trigger] lines[j])) && symbols.next
            + new_variables(lines, symbols.bound.dom()).len() <= MAX_ADDRESS + 1,
    decreases lines.len(),
{
    if lines.len() > 0 {
        let shorter = lines.drop_last();
        second_pass_succeeds_exactly_when(shorter, symbols);
        if second_pass(shorter, symbols).0 is Ok {
            variables_in_order_of_first_use(shorter, symbols);
            if second_pass(lines, symbols).0 is Ok {
                variables_in_order_of_first_use(lines, symbols);
                assert forall|j: int| 0 <= j < lines.len() implies translatable(
                    #[trigger] lines[j],
                ) by {
                    if j < shorter.len() {
                        assert(translatable(shorter[j]));
                    }
                }
            }
        } else if forall|j: int| 0 <= j < shorter.len() ==> translatable(#[trigger] shorter[j]) {
            assert(new_variables(shorter, symbols.bound.dom()).len() <= new_variables(
                lines,
                symbols.bound.dom(),
            ).len());
        } else {
            let j = choose|j: int| 0 <= j < shorter.len() && !translatable(#[trigger] shorter[j]);
            assert(!translatable(lines[j]));
        }
    }
}

/// Which programs are translated: those that fit the instruction memory,
/// whose every line can be translated, and whose variables fit the data
/// memory from `FIRST_VARIABLE` on.
pub proof fn assemble_succeeds_exactly_when(lines: Seq<Seq<char>>)
    ensures
        assemble_lines(lines) is Ok <==> ({
            &&& forall|i: int|
                0 <= i < lines.len() ==> instruction_count(#[trigger] lines.take(i))
                    <= MAX_ADDRESS
            &&& forall|j: int| 0 <= j < lines.len() ==> translatable(#[trigger] lines[j])
            &&& FIRST_VARIABLE + new_variables(
                lines,
                first_pass(lines, Symbols::initial()).1.bound.dom(),
            ).len() <= MAX_ADDRESS + 1
        }),
{
    first_pass_succeeds_exactly_when(lines, Symbols::initial());
    first_pass_keeps_counter(lines, Symbols::initial());
    lemma_initial_valid();
    passes_keep_table_valid(lines, Symbols::initial());
    second_pass_succeeds_exactly_when(lines, first_pass(lines, Symbols::initial()).1);
}

/// A translation depends on the characters of the lines alone: whatever
/// `assemble` returns for two programs that read the same is the same.
pub proof fn same_lines_same_words(
    first: Seq<&str>,
    second: Seq<&str>,
    first_words: Result<Seq<u16>, AsmError>,
    second_words: Result<Seq<u16>, AsmError>,
)
    requires
        views(first) == views(second),
        first_words == assemble_lines(views(first)),
        second_words == assemble_lines(views(second)),
    ensures
        first_words == second_words,
{
}

/// A program that is translated gives one word for each of its instructions.
pub proof fn one_word_per_instruction_of_program(lines: Seq<Seq<char>>)
    ensures
        assemble_lines(lines) matches Ok(words) ==> words.len() == instruction_count(lines),
{
    one_word_per_instruction(lines, first_pass(lines, Symbols::initial()).1);
}

} // verus!
