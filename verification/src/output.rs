//! The text that a translated program is written as, and the name of the file
//! it is written to.

use crate::text::{after_last, find_after_last, find_char, first_index, to_chars};
use vstd::prelude::*;

verus! {

/// Whether bit `position` of `word` is set; bit 0 is the lowest.
pub open spec fn bit_at(word: u16, position: u16) -> bool {
    (word >> position) & 1 == 1
}

/// The 16 binary digits of a word, highest bit first.
pub open spec fn word_bits(word: u16) -> Seq<char> {
    Seq::new(
        16,
        |i: int|
            if bit_at(word, (15 - i) as u16) {
                '1'
            } else {
                '0'
            },
    )
}

/// The digits of each word, with a newline between one word and the next.
pub open spec fn joined(words: Seq<u16>) -> Seq<char>
    decreases words.len(),
{
    if words.len() == 0 {
        Seq::empty()
    } else if words.len() == 1 {
        word_bits(words[0])
    } else {
        joined(words.drop_last()) + seq!['\n'] + word_bits(words.last())
    }
}

/// The text of a program: its words joined by newlines, and a newline at the
/// end.
pub open spec fn render(words: Seq<u16>) -> Seq<char> {
    joined(words) + seq!['\n']
}

/// Where the translation of the file at `path` goes: beside it, under the
/// same name up to the first dot of the name, with the extension `.hack`.
pub open spec fn output_path(path: Seq<char>) -> Seq<char> {
    let start = after_last(path, '/');
    let name = path.skip(start);
    path.take(start) + name.take(first_index(name, '.')) + ".hack"@
}

/// The number a string of binary digits is read as, highest digit first.
pub open spec fn binary_value(digits: Seq<char>) -> nat
    decreases digits.len(),
{
    if digits.len() == 0 {
        0
    } else {
        2 * binary_value(digits.drop_last()) + if digits.last() == '1' {
            1nat
        } else {
            0nat
        }
    }
}

/// The first `n` digits of a word read as its highest `n` bits.
proof fn lemma_leading_bits(word: u16, n: int)
    requires
        0 <= n <= 16,
    ensures
        binary_value(word_bits(word).take(n)) == if n == 0 {
            0
        } else {
            word >> ((16 - n) as u16)
        },
    decreases n,
{
    if n > 0 {
        let digits = word_bits(word);
        lemma_leading_bits(word, n - 1);
        assert(digits.take(n).drop_last() =~= digits.take(n - 1));
        let k = (16 - n) as u16;
        if n == 1 {
            assert((word >> 15u16) & 1 == word >> 15u16) by (bit_vector);
            assert(word >> 15u16 == 0 || word >> 15u16 == 1) by (bit_vector);
        } else {
            assert((word >> k) == 2 * (word >> ((k + 1) as u16)) + ((word >> k) & 1) && ((word >> k)
                & 1 == 0 || (word >> k) & 1 == 1)) by (bit_vector)
                requires
                    k < 15,
            ;
        }
    }
}

/// The digits of a word are 16 characters, each `0` or `1`, and read back as
/// the word.
pub proof fn word_bits_read_back(word: u16)
    ensures
        word_bits(word).len() == 16,
        forall|i: int|
            0 <= i < 16 ==> (#[trigger] word_bits(word)[i] == '0' || word_bits(word)[i] == '1'),
        binary_value(word_bits(word)) == word,
{
    lemma_leading_bits(word, 16);
    assert(word_bits(word).take(16) =~= word_bits(word));
    assert(word >> 0u16 == word) by (bit_vector);
}

/// Appends the 16 binary digits of `word` to `text`.
fn append_bits(text: &mut String, word: u16)
    ensures
        final(text)@ == old(text)@ + word_bits(word),
{
    let ghost start = text@;
    let mut k: u16 = 0;
    while k < 16
        invariant
            k <= 16,
            text@ == start + word_bits(word).take(k as int),
        decreases 16 - k,
    {
        proof {
            reveal_strlit("1");
            reveal_strlit("0");
        }
        if (word >> (15 - k)) & 1 == 1 {
            text.append("1");
        } else {
            text.append("0");
        }
        assert(word_bits(word).take(k + 1) =~= word_bits(word).take(k as int).push(
            word_bits(word)[k as int],
        ));
        k += 1;
    }
}

/// Writes each word as 16 binary digits, highest bit first, with a newline
/// between one word and the next and a newline at the end.
pub fn translate_bits_into_string(vals: Vec<u16>) -> (text: String)
    ensures
        text@ == render(vals@),
{
    let mut text = String::new();
    let mut i: usize = 0;
    proof {
        reveal_strlit("\n");
    }
    while i < vals.len()
        invariant
            i <= vals.len(),
            "\n"@ == seq!['\n'],
            text@ == joined(vals@.take(i as int)),
        decreases vals.len() - i,
    {
        if i > 0 {
            text.append("\n");
        }
        append_bits(&mut text, vals[i]);
        assert(vals@.take(i + 1).drop_last() =~= vals@.take(i as int));
        i += 1;
    }
    assert(vals@.take(i as int) =~= vals@);
    text.append("\n");
    text
}

/// The path of the output file for the source file at `filepath`.
pub fn isolate_filename(filepath: &str) -> (out: String)
    ensures
        out@ == output_path(filepath@),
{
    let chars = to_chars(filepath);
    let n = chars.len();
    let start = find_after_last(&chars, '/');
    let dot = find_char(&chars, start, n, '.');
    let mut out = String::from_str(filepath.substring_char(0, dot));
    out.append(".hack");
    out
}

} // verus!
