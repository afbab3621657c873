use hack_assembler::error::AsmError;
use hack_assembler::parser::{
    assemble, first_pass_line, process_file, process_line, resolve_labels, translate_line,
    translate_lines, NO_WORD,
};
use hack_assembler::table::Table;

#[test]
fn test_process_line_a() {
    let mut line_num = 1 as u16;
    let mut t = Table::new();
    let res = process_line(&mut line_num, &"@2", &mut t);
    assert_eq!(res, Ok((2 as u16, 0b0000_0000_0000_0010 as u16)));
}

#[test]
fn test_process_line_c1() {
    let mut line_num = 1 as u16;
    let mut t = Table::new();
    let res = process_line(&mut line_num, &"D=A", &mut t);
    assert_eq!(res, Ok((2 as u16, 0b1110_1100_0001_0000 as u16)));
}

#[test]
fn process_line_gives_no_word_for_a_label() {
    let mut line_num = 5 as u16;
    let mut t = Table::new();
    let res = process_line(&mut line_num, "(LOOP)", &mut t);
    assert_eq!(res, Ok((5, NO_WORD)));
    assert_eq!(NO_WORD, u16::MAX);
    assert_eq!(line_num, 5);
    assert_eq!(t.len(), 23);
}

#[test]
fn process_line_hands_the_error_on() {
    let mut line_num = 0 as u16;
    let mut t = Table::new();
    assert_eq!(process_line(&mut line_num, "D=Q", &mut t), Err(AsmError::UnknownComputation));
    assert_eq!(line_num, 1);
    assert_eq!(process_line(&mut line_num, "@70000", &mut t), Err(AsmError::Overflow));
    assert_eq!(line_num, 2);
    assert_eq!(process_line(&mut line_num, "", &mut t), Err(AsmError::UnknownComputation));
}

#[test]
fn translate_line_by_kind_of_line() {
    let mut t = Table::new();
    assert_eq!(translate_line("@21", &mut t), Ok(Some(21)));
    assert_eq!(translate_line("(X)", &mut t), Ok(None));
    assert_eq!(translate_line("M=M+1", &mut t), Ok(Some(0b1111110111001000)));
    assert_eq!(translate_line("@x", &mut t), Ok(Some(16)));
    assert_eq!(translate_line("M+2", &mut t), Err(AsmError::UnknownComputation));
}

#[test]
fn first_pass_line_counts_instructions_and_binds_labels() {
    let mut t = Table::new();
    let mut line_num = 0 as u16;
    first_pass_line("@i", &mut line_num, &mut t);
    assert_eq!(line_num, 1);
    first_pass_line("M=1", &mut line_num, &mut t);
    assert_eq!(line_num, 2);
    first_pass_line("(LOOP)", &mut line_num, &mut t);
    assert_eq!(line_num, 2);
    first_pass_line("garbage", &mut line_num, &mut t);
    assert_eq!(line_num, 3);
    assert_eq!(t.get_addr("LOOP"), 2);
    assert!(!t.contains("i"));
    assert_eq!(t.len(), 24);
}

#[test]
fn resolve_labels_binds_each_label_to_the_next_instruction() {
    let lines = vec!["(START)", "@0", "D=M", "(MID)", "(ALSO)", "@1", "0;JMP", "(END)"];
    let mut t = Table::new();
    assert_eq!(resolve_labels(&lines, &mut t), Ok(()));
    assert_eq!(t.get_addr("START"), 0);
    assert_eq!(t.get_addr("MID"), 2);
    assert_eq!(t.get_addr("ALSO"), 2);
    assert_eq!(t.get_addr("END"), 4);
    assert_eq!(t.len(), 27);
    assert_eq!(t.resolve_or_allocate("v"), Ok(16));
}

#[test]
fn resolve_labels_lets_the_last_declaration_win() {
    let lines = vec!["(L)", "0", "(L)", "0", "0", "(L)"];
    let mut t = Table::new();
    assert_eq!(resolve_labels(&lines, &mut t), Ok(()));
    assert_eq!(t.get_addr("L"), 3);
}

#[test]
fn translate_lines_emits_one_word_for_each_instruction() {
    let lines = vec!["@2", "D=A", "(L)", "@3", "D=D+A", "(M)", "@0", "M=D"];
    let mut t = Table::new();
    let words = translate_lines(&lines, &mut t).unwrap();
    assert_eq!(
        words,
        vec![
            0b0000000000000010,
            0b1110110000010000,
            0b0000000000000011,
            0b1110000010010000,
            0b0000000000000000,
            0b1110001100001000,
        ]
    );
}

#[test]
fn translate_lines_stops_at_the_first_error() {
    let lines = vec!["@a", "D=A", "@40000", "@b", "nonsense"];
    let mut t = Table::new();
    assert_eq!(translate_lines(&lines, &mut t), Err(AsmError::Overflow));
    assert!(t.contains("a"));
    assert!(!t.contains("b"));
    let lines = vec!["@a", "nonsense", "@40000"];
    assert_eq!(translate_lines(&lines, &mut Table::new()), Err(AsmError::UnknownComputation));
}

#[test]
fn assemble_resolves_a_label_used_before_its_declaration() {
    let lines = vec!["@LOOP", "D=A", "(LOOP)", "@LOOP", "0;JMP", "@END", "(END)"];
    let words = assemble(&lines).unwrap();
    assert_eq!(words.len(), 5);
    assert_eq!(words[0], 2);
    assert_eq!(words[2], 2);
    assert_eq!(words[4], 5);
    assert_eq!(words[1], 0b1110110000010000);
    assert_eq!(words[3], 0b1110101010000111);
}

#[test]
fn assemble_numbers_variables_after_all_labels_are_known() {
    let lines = vec!["@i", "@LATER", "@j", "@i", "(LATER)", "@k", "@R5", "@j"];
    assert_eq!(assemble(&lines), Ok(vec![16, 4, 17, 16, 18, 5, 17]));
}

#[test]
fn assemble_of_nothing_is_nothing() {
    let lines: Vec<&str> = vec![];
    assert_eq!(assemble(&lines), Ok(vec![]));
    assert_eq!(assemble(&vec!["(ONLY)"]), Ok(vec![]));
}

#[test]
fn assemble_gives_the_same_words_for_the_same_lines() {
    let lines = vec!["@i", "M=1", "(LOOP)", "@i", "D=M", "@100", "D=D-A", "@END", "D;JGT", "@LOOP", "0;JMP", "(END)"];
    let copy: Vec<String> = lines.iter().map(|l| l.to_string()).collect();
    let again: Vec<&str> = copy.iter().map(|l| l.as_str()).collect();
    let first = assemble(&lines);
    assert_eq!(first, assemble(&again));
    assert_eq!(first, assemble(&lines));
    assert_eq!(first.unwrap().len(), 10);
}

#[test]
fn assemble_fails_with_the_first_fatal_error() {
    assert_eq!(assemble(&vec!["@1", "D=A", "@32768"]), Err(AsmError::Overflow));
    assert_eq!(assemble(&vec!["@1", "D=X", "@32768"]), Err(AsmError::UnknownComputation));
    assert_eq!(assemble(&vec!["@32768", "D=X"]), Err(AsmError::Overflow));
    assert_eq!(assemble(&vec![""]), Err(AsmError::UnknownComputation));
}

#[test]
fn assemble_fills_the_instruction_memory_and_no_more() {
    let mut lines: Vec<&str> = vec!["0;JMP"; 32768];
    let words = assemble(&lines).unwrap();
    assert_eq!(words.len(), 32768);
    lines.push("(END)");
    assert_eq!(assemble(&lines), Err(AsmError::AddressSpaceExhausted));
    lines.pop();
    lines[32767] = "(LAST)";
    lines.push("@LAST");
    let words = assemble(&lines).unwrap();
    assert_eq!(words.len(), 32768);
    assert_eq!(words[32767], 32767);
    lines.push("0;JMP");
    assert_eq!(assemble(&lines), Err(AsmError::AddressSpaceExhausted));
}

#[test]
fn resolve_labels_keeps_the_labels_before_the_line_that_does_not_fit() {
    let mut lines: Vec<&str> = vec!["(FIRST)"];
    lines.resize(32769, "0");
    lines.push("(FULL)");
    lines.push("0");
    lines.push("(NEVER)");
    let mut t = Table::new();
    assert_eq!(resolve_labels(&lines, &mut t), Err(AsmError::AddressSpaceExhausted));
    assert_eq!(t.get_addr("FIRST"), 0);
    assert!(!t.contains("FULL"));
    assert!(!t.contains("NEVER"));
}

#[test]
fn process_file_translates_a_small_program() {
    let source = "// Adds 2 and 3\n\n@2\n   D=A  // two\n@3\r\nD=D+A\n@0\nM=D\n";
    let expected = "0000000000000010\n1110110000010000\n0000000000000011\n1110000010010000\n0000000000000000\n1110001100001000\n";
    assert_eq!(process_file(source), Ok(expected.to_string()));
}

#[test]
fn process_file_writes_sixteen_digits_for_each_instruction() {
    assert_eq!(process_file("D=A"), Ok("1110110000010000\n".to_string()));
    assert_eq!(process_file("D;JGT"), Ok("1110001100000001\n".to_string()));
    assert_eq!(process_file("@32767"), Ok("0111111111111111\n".to_string()));
}

#[test]
fn process_file_of_no_instruction_is_one_newline() {
    assert_eq!(process_file(""), Ok("\n".to_string()));
    assert_eq!(process_file("// nothing\n   \n(LABEL)\n"), Ok("\n".to_string()));
}

#[test]
fn process_file_gives_no_text_on_an_error() {
    assert_eq!(process_file("@1\nD=A\n@99999\n"), Err(AsmError::Overflow));
    assert_eq!(process_file("@1\nD=A+\n"), Err(AsmError::UnknownComputation));
}

#[test]
fn process_file_with_labels_and_variables() {
    let source = "@i\nM=1 // i = 1\n(LOOP)\n@i\nD=M\n@END\nD;JGT\n@LOOP\n0;JMP\n(END)\n@END\n0;JMP // fin → stop";
    let expected = "0000000000010000\n1110111111001000\n0000000000010000\n1111110000010000\n0000000000001000\n1110001100000001\n0000000000000010\n1110101010000111\n0000000000001000\n1110101010000111\n";
    assert_eq!(process_file(source), Ok(expected.to_string()));
}

#[test]
fn first_pass_line_counts_instructions_past_the_last_address() {
    let mut t = Table::new();
    for start in [32767u16, 32768, 40000, 65534] {
        let mut line_num = start;
        first_pass_line("@unseen", &mut line_num, &mut t);
        assert_eq!(line_num, start + 1);
        let mut line_num = start;
        first_pass_line("D=M", &mut line_num, &mut t);
        assert_eq!(line_num, start + 1);
    }
    assert_eq!(t.len(), 23);
    assert!(!t.contains("unseen"));
    assert_eq!(t.resolve_or_allocate("v"), Ok(16));
}

#[test]
fn first_pass_line_binds_a_label_at_the_last_address() {
    let mut t = Table::new();
    let mut line_num = 32767 as u16;
    first_pass_line("(LAST)", &mut line_num, &mut t);
    assert_eq!(line_num, 32767);
    assert_eq!(t.get_addr("LAST"), 32767);
}

#[test]
fn process_line_takes_a_label_at_any_count() {
    let mut t = Table::new();
    for start in [0u16, 32768, 65534, 65535] {
        let mut line_num = start;
        assert_eq!(process_line(&mut line_num, "(LOOP)", &mut t), Ok((start, NO_WORD)));
        assert_eq!(line_num, start);
    }
    assert_eq!(t.len(), 23);
    assert!(!t.contains("LOOP"));
}

#[test]
fn process_line_gives_the_same_word_at_any_count() {
    for line in ["@5", "@KBD", "@fresh", "D=A", "0;JMP", "(L)", "D=Q", "@99999"] {
        let mut first_table = Table::new();
        let mut second_table = Table::new();
        let mut first_count = 3 as u16;
        let mut second_count = 60000 as u16;
        let first = process_line(&mut first_count, line, &mut first_table);
        let second = process_line(&mut second_count, line, &mut second_table);
        assert_eq!(first.map(|out| out.1), second.map(|out| out.1));
        assert_eq!(first_table.len(), second_table.len());
        assert_eq!(first_table.contains("fresh"), second_table.contains("fresh"));
        assert_eq!(first_table.get_addr("fresh"), second_table.get_addr("fresh"));
        assert_eq!(first_table.resolve_or_allocate("next"), second_table.resolve_or_allocate("next"));
    }
}
