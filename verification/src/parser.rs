//! The two passes over a program: the first binds every label to the address
//! of the instruction that follows it, the second turns each instruction into
//! its word, binding variables as it meets them.

use crate::code::{a_command, c_command, encode_compute, first_pass_l, label_name};
use crate::error::AsmError;
use crate::output::{render, translate_bits_into_string};
use crate::source::{clean_lines, instruction_lines, source_lines};
use crate::table::{Symbols, Table, MAX_ADDRESS};
use crate::text::views;
use vstd::prelude::*;

verus! {

/// What `process_line` returns in place of a word for a line that has none.
pub const NO_WORD: u16 = 0xFFFF;

/// Whether a line is an address instruction: it starts with `@`.
pub open spec fn is_address(line: Seq<char>) -> bool {
    line.len() > 0 && line[0] == '@'
}

/// Whether a line declares a label: it starts with `(`.
pub open spec fn is_label(line: Seq<char>) -> bool {
    line.len() > 0 && line[0] == '('
}

/// The number of instructions among `lines`: every line but the labels.
pub open spec fn instruction_count(lines: Seq<Seq<char>>) -> nat
    decreases lines.len(),
{
    if lines.len() == 0 {
        0
    } else {
        instruction_count(lines.drop_last()) + if is_label(lines.last()) {
            0nat
        } else {
            1nat
        }
    }
}

/// One line of the first pass, with `counter` instructions before it: a label
/// is bound to `counter`, an instruction moves the counter up by one.
pub open spec fn first_pass_step(line: Seq<char>, counter: nat, symbols: Symbols) -> (
    nat,
    Symbols,
) {
    if is_label(line) {
        (counter, symbols.declare(label_name(line), counter as u16))
    } else {
        (counter + 1, symbols)
    }
}

/// The first pass, line by line from the first: each label is bound to the
/// number of instructions before it. The pass stops with
/// `AddressSpaceExhausted` at the first line, label or instruction, that has
/// more than `MAX_ADDRESS` instructions before it.
pub open spec fn first_pass(lines: Seq<Seq<char>>, symbols: Symbols) -> (
    Result<(), AsmError>,
    Symbols,
)
    decreases lines.len(),
{
    if lines.len() == 0 {
        (Ok(()), symbols)
    } else {
        let (done, before) = first_pass(lines.drop_last(), symbols);
        let counter = instruction_count(lines.drop_last());
        if done is Err {
            (done, before)
        } else if counter > MAX_ADDRESS {
            (Err(AsmError::AddressSpaceExhausted), before)
        } else {
            (Ok(()), first_pass_step(lines.last(), counter, before).1)
        }
    }
}

/// One line of the second pass: the word of an instruction, or no word for a
/// label, and the table after the line.
pub open spec fn translate(line: Seq<char>, symbols: Symbols) -> (
    Result<Option<u16>, AsmError>,
    Symbols,
) {
    if is_address(line) {
        let (address, after) = symbols.resolve(line.drop_first());
        match address {
            Ok(word) => (Ok(Some(word)), after),
            Err(e) => (Err(e), after),
        }
    } else if is_label(line) {
        (Ok(None), symbols)
    } else {
        match encode_compute(line) {
            Ok(word) => (Ok(Some(word)), symbols),
            Err(e) => (Err(e), symbols),
        }
    }
}

/// The second pass, line by line from the first: the words of the
/// instructions in order, up to the first line that fails.
pub open spec fn second_pass(lines: Seq<Seq<char>>, symbols: Symbols) -> (
    Result<Seq<u16>, AsmError>,
    Symbols,
)
    decreases lines.len(),
{
    if lines.len() == 0 {
        (Ok(Seq::empty()), symbols)
    } else {
        let (words, before) = second_pass(lines.drop_last(), symbols);
        match words {
            Err(e) => (Err(e), before),
            Ok(earlier) => {
                let (word, after) = translate(lines.last(), before);
                match word {
                    Ok(Some(w)) => (Ok(earlier.push(w)), after),
                    Ok(None) => (Ok(earlier), after),
                    Err(e) => (Err(e), after),
                }
            },
        }
    }
}

/// The words of a program: the first pass over all of its lines, starting
/// from the predefined names, then the second pass over the same lines.
pub open spec fn assemble_lines(lines: Seq<Seq<char>>) -> Result<Seq<u16>, AsmError> {
    let (labelled, symbols) = first_pass(lines, Symbols::initial());
    match labelled {
        Ok(_) => second_pass(lines, symbols).0,
        Err(e) => Err(e),
    }
}

/// The text that the source text of a program is translated to.
pub open spec fn translate_text(text: Seq<char>) -> Result<Seq<char>, AsmError> {
    match assemble_lines(instruction_lines(text)) {
        Ok(words) => Ok(render(words)),
        Err(e) => Err(e),
    }
}

/// Once the first pass has failed on the first `k` lines, more lines change
/// nothing.
pub proof fn lemma_first_pass_stops(lines: Seq<Seq<char>>, symbols: Symbols, k: int)
    requires
        0 <= k <= lines.len(),
        first_pass(lines.take(k), symbols).0 is Err,
    ensures
        first_pass(lines, symbols) == first_pass(lines.take(k), symbols),
    decreases lines.len(),
{
    if k == lines.len() {
        assert(lines.take(k) =~= lines);
    } else {
        assert(lines.drop_last().take(k) =~= lines.take(k));
        lemma_first_pass_stops(lines.drop_last(), symbols, k);
    }
}

/// Once the second pass has failed on the first `k` lines, more lines change
/// nothing.
pub proof fn lemma_second_pass_stops(lines: Seq<Seq<char>>, symbols: Symbols, k: int)
    requires
        0 <= k <= lines.len(),
        second_pass(lines.take(k), symbols).0 is Err,
    ensures
        second_pass(lines, symbols) == second_pass(lines.take(k), symbols),
    decreases lines.len(),
{
    if k == lines.len() {
        assert(lines.take(k) =~= lines);
    } else {
        assert(lines.drop_last().take(k) =~= lines.take(k));
        lemma_second_pass_stops(lines.drop_last(), symbols, k);
    }
}

/// Whether a line starts with `c`.
fn starts_with(line: &str, c: char) -> (starts: bool)
    ensures
        starts == (line@.len() > 0 && line@[0] == c),
{
    line.unicode_len() > 0 && line.get_char(0) == c
}

/// The first pass over one line: a label line binds its name to `line_num`,
/// any other line moves `line_num` up by one and leaves the table alone.
///
/// A label can only be bound to an address, so `line_num` must not exceed
/// `MAX_ADDRESS` on a label line; on any other line it must only have room
/// to count one more.
pub fn first_pass_line(line: &str, line_num: &mut u16, table: &mut Table)
    requires
        old(table).wf(),
        is_label(line@) ==> *old(line_num) <= MAX_ADDRESS,
        !is_label(line@) ==> *old(line_num) < u16::MAX,
    ensures
        (*final(line_num) as nat, final(table)@) == first_pass_step(
            line@,
            *old(line_num) as nat,
            old(table)@,
        ),
        !is_label(line@) ==> *final(table) == *old(table),
        final(table).wf(),
{
    if starts_with(line, '@') {
        *line_num += 1;
    } else if starts_with(line, '(') {
        first_pass_l(line, line_num, table);
    } else {
        *line_num += 1;
    }
}

/// The second pass over one line: the word of an instruction, `None` for a
/// label.
pub fn translate_line(line: &str, table: &mut Table) -> (word: Result<Option<u16>, AsmError>)
    requires
        old(table).wf(),
    ensures
        (word, final(table)@) == translate(line@, old(table)@),
        !is_address(line@) ==> *final(table) == *old(table),
        final(table).wf(),
        word matches Ok(Some(w)) ==> w != NO_WORD,
{
    if starts_with(line, '@') {
        match a_command(line, table) {
            Ok(w) => Ok(Some(w)),
            Err(e) => Err(e),
        }
    } else if starts_with(line, '(') {
        Ok(None)
    } else {
        match c_command(line) {
            Ok(w) => {
                proof {
                    crate::code::lemma_encode_compute_range(line@);
                }
                Ok(Some(w))
            },
            Err(e) => Err(e),
        }
    }
}

/// The second pass over one line, counting instructions in `line_num`: the
/// count after the line, and the word of the line, or `NO_WORD` for a label.
///
/// The word and the table after the line depend on the line and the table
/// alone. A label line leaves the count as it is; on any other line
/// `line_num` must have room to count one more.
pub fn process_line(line_num: &mut u16, line: &str, table: &mut Table) -> (out: Result<
    (u16, u16),
    AsmError,
>)
    requires
        old(table).wf(),
        !is_label(line@) ==> *old(line_num) < u16::MAX,
    ensures
        *final(line_num) == *old(line_num) + if is_label(line@) {
            0int
        } else {
            1int
        },
        final(table)@ == translate(line@, old(table)@).1,
        !is_address(line@) ==> *final(table) == *old(table),
        final(table).wf(),
        match translate(line@, old(table)@).0 {
            Ok(Some(w)) => out == Ok::<(u16, u16), AsmError>((*final(line_num), w)) && w
                != NO_WORD,
            Ok(None) => out == Ok::<(u16, u16), AsmError>((*final(line_num), NO_WORD)),
            Err(e) => out == Err::<(u16, u16), AsmError>(e),
        },
{
    if !starts_with(line, '(') {
        *line_num += 1;
    }
    match translate_line(line, table) {
        Ok(Some(w)) => Ok((*line_num, w)),
        Ok(None) => Ok((*line_num, NO_WORD)),
        Err(e) => Err(e),
    }
}

/// The first pass over a program: binds every label of `lines` in `table`.
///
/// Fails with `AddressSpaceExhausted`, at the first line that has more than
/// `MAX_ADDRESS` instructions before it; the labels before that line are then
/// bound.
pub fn resolve_labels(lines: &Vec<&str>, table: &mut Table) -> (done: Result<(), AsmError>)
    requires
        old(table).wf(),
    ensures
        (done, final(table)@) == first_pass(views(lines@), old(table)@),
        final(table).wf(),
{
    let ghost all = views(lines@);
    let ghost start = table@;
    let mut line_num: u16 = 0;
    let mut i: usize = 0;
    while i < lines.len()
        invariant
            i <= lines.len(),
            all == views(lines@),
            start == old(table)@,
            table.wf(),
            first_pass(all.take(i as int), start) == (Ok::<(), AsmError>(()), table@),
            line_num == instruction_count(all.take(i as int)),
            line_num <= MAX_ADDRESS + 1,
        decreases lines.len() - i,
    {
        assert(all.take(i + 1).drop_last() =~= all.take(i as int));
        if line_num > MAX_ADDRESS {
            proof {
                lemma_first_pass_stops(all, start, i + 1);
            }
            return Err(AsmError::AddressSpaceExhausted);
        }
        first_pass_line(lines[i], &mut line_num, table);
        i += 1;
    }
    assert(all.take(i as int) =~= all);
    Ok(())
}

/// The second pass over a program: the words of the instructions of `lines`,
/// in order, with every new variable bound in `table`.
///
/// Fails at the first line that does, with the error of that line; the
/// variables before that line are then bound.
pub fn translate_lines(lines: &Vec<&str>, table: &mut Table) -> (words: Result<
    Vec<u16>,
    AsmError,
>)
    requires
        old(table).wf(),
    ensures
        final(table)@ == second_pass(views(lines@), old(table)@).1,
        final(table).wf(),
        match words {
            Ok(w) => second_pass(views(lines@), old(table)@).0 == Ok::<Seq<u16>, AsmError>(w@),
            Err(e) => second_pass(views(lines@), old(table)@).0 == Err::<Seq<u16>, AsmError>(e),
        },
{
    let ghost all = views(lines@);
    let ghost start = table@;
    let mut words: Vec<u16> = Vec::new();
    let mut i: usize = 0;
    while i < lines.len()
        invariant
            i <= lines.len(),
            all == views(lines@),
            start == old(table)@,
            table.wf(),
            second_pass(all.take(i as int), start) == (Ok::<Seq<u16>, AsmError>(words@), table@),
        decreases lines.len() - i,
    {
        assert(all.take(i + 1).drop_last() =~= all.take(i as int));
        match translate_line(lines[i], table) {
            Ok(Some(w)) => {
                words.push(w);
            },
            Ok(None) => {},
            Err(e) => {
                proof {
                    lemma_second_pass_stops(all, start, i + 1);
                }
                return Err(e);
            },
        }
        i += 1;
    }
    assert(all.take(i as int) =~= all);
    Ok(words)
}

/// Translates a program: one word for each instruction of `lines`, in order,
/// or the first fatal error.
pub fn assemble(lines: &Vec<&str>) -> (words: Result<Vec<u16>, AsmError>)
    ensures
        match words {
            Ok(w) => assemble_lines(views(lines@)) == Ok::<Seq<u16>, AsmError>(w@),
            Err(e) => assemble_lines(views(lines@)) == Err::<Seq<u16>, AsmError>(e),
        },
{
    let mut table = Table::new();
    match resolve_labels(lines, &mut table) {
        Ok(_) => translate_lines(lines, &mut table),
        Err(e) => Err(e),
    }
}

/// Translates the contents of a source file to the contents of its output
/// file: one line of 16 binary digits for each instruction, or the first fatal
/// error and no text.
pub fn process_file(contents: &str) -> (text: Result<String, AsmError>)
    ensures
        match text {
            Ok(t) => translate_text(contents@) == Ok::<Seq<char>, AsmError>(t@),
            Err(e) => translate_text(contents@) == Err::<Seq<char>, AsmError>(e),
        },
{
    let lines = source_lines(contents);
    let kept = clean_lines(&lines);
    match assemble(&kept) {
        Ok(words) => Ok(translate_bits_into_string(words)),
        Err(e) => Err(e),
    }
}

} // verus!
