use hack_assembler::error::AsmError;
use hack_assembler::table::{parse_literal, Table, FIRST_VARIABLE, MAX_ADDRESS};

fn predefined() -> Vec<(&'static str, u16)> {
    vec![
        ("SP", 0),
        ("LCL", 1),
        ("ARG", 2),
        ("THIS", 3),
        ("THAT", 4),
        ("R0", 0),
        ("R1", 1),
        ("R2", 2),
        ("R3", 3),
        ("R4", 4),
        ("R5", 5),
        ("R6", 6),
        ("R7", 7),
        ("R8", 8),
        ("R9", 9),
        ("R10", 10),
        ("R11", 11),
        ("R12", 12),
        ("R13", 13),
        ("R14", 14),
        ("R15", 15),
        ("SCREEN", 16384),
        ("KBD", 24576),
    ]
}

#[test]
fn test_default_map() {
    let mut m = Table::new();

    let v = predefined();
    assert_eq!(m.len(), v.len());
    for (name, address) in v {
        assert!(m.contains(name));
        assert_eq!(m.get_addr(name), address);
    }
}

#[test]
fn test_add_to_map() {
    let mut m = Table::new();
    m.insert("1".to_string(), 1);
    let mut v = predefined();
    v.push(("1", 1));
    assert_eq!(m.len(), v.len());
    for (name, address) in v {
        assert!(m.contains(name));
        assert_eq!(m.get_addr(name), address);
    }

    let q = m.contains("1");
    let r = true;
    assert_eq!(q, r);

    let q = m.get_addr("1");
    let r = 1;
    assert_eq!(q, r);
}

#[test]
fn constants_are_those_of_the_machine() {
    assert_eq!(MAX_ADDRESS, 32767);
    assert_eq!(FIRST_VARIABLE, 16);
}

#[test]
fn insert_replaces_an_earlier_binding() {
    let mut m = Table::new();
    m.insert("LOOP".to_string(), 4);
    m.insert("LOOP".to_string(), 9);
    assert_eq!(m.get_addr("LOOP"), 9);
    assert_eq!(m.len(), 24);
    m.insert("SP".to_string(), 100);
    assert_eq!(m.get_addr("SP"), 100);
    assert_eq!(m.len(), 24);
}

#[test]
fn get_addr_of_an_unbound_name_is_zero() {
    let mut m = Table::new();
    assert!(!m.contains("nothing"));
    assert_eq!(m.get_addr("nothing"), 0);
    assert!(!m.contains("sp"));
}

#[test]
fn get_next_rom_counts_up_from_the_first_variable() {
    let mut m = Table::new();
    assert_eq!(m.get_next_rom(), 16);
    assert_eq!(m.get_next_rom(), 17);
    assert_eq!(m.get_next_rom(), 18);
    assert_eq!(m.resolve_or_allocate("x"), Ok(19));
}

#[test]
fn resolve_or_allocate_gives_the_same_address_twice() {
    let mut m = Table::new();
    let first = m.resolve_or_allocate("counter");
    let second = m.resolve_or_allocate("counter");
    assert_eq!(first, Ok(16));
    assert_eq!(second, first);
    assert_eq!(m.len(), 24);
    assert_eq!(m.resolve_or_allocate("other"), Ok(17));
    assert_eq!(m.resolve_or_allocate("counter"), Ok(16));
}

#[test]
fn resolve_or_allocate_returns_a_literal_as_it_is() {
    let mut m = Table::new();
    assert_eq!(m.resolve_or_allocate("0"), Ok(0));
    assert_eq!(m.resolve_or_allocate("32767"), Ok(32767));
    assert_eq!(m.resolve_or_allocate("32768"), Err(AsmError::Overflow));
    assert_eq!(m.len(), 23);
    assert_eq!(m.resolve_or_allocate("v"), Ok(16));
}

#[test]
fn resolve_or_allocate_prefers_the_literal_to_a_binding() {
    let mut m = Table::new();
    m.insert("123".to_string(), 5);
    assert_eq!(m.resolve_or_allocate("123"), Ok(123));
}

#[test]
fn resolve_or_allocate_finds_a_declared_label() {
    let mut m = Table::new();
    m.insert("END".to_string(), 42);
    assert_eq!(m.resolve_or_allocate("END"), Ok(42));
    assert_eq!(m.resolve_or_allocate("v"), Ok(16));
}

#[test]
fn resolve_or_allocate_fails_when_the_data_memory_is_used_up() {
    let mut m = Table::new();
    for i in 16..=32767u16 {
        assert_eq!(m.resolve_or_allocate(&format!("v{i}")), Ok(i));
    }
    assert_eq!(m.resolve_or_allocate("one_more"), Err(AsmError::AddressSpaceExhausted));
    assert!(!m.contains("one_more"));
    assert_eq!(m.resolve_or_allocate("v16"), Ok(16));
    assert_eq!(m.resolve_or_allocate("KBD"), Ok(24576));
    assert_eq!(m.resolve_or_allocate("9"), Ok(9));
}

#[test]
fn parse_literal_tells_literals_from_symbols() {
    assert_eq!(parse_literal("0"), Some(Ok(0)));
    assert_eq!(parse_literal("17"), Some(Ok(17)));
    assert_eq!(parse_literal("007"), Some(Ok(7)));
    assert_eq!(parse_literal("+17"), Some(Ok(17)));
    assert_eq!(parse_literal("32767"), Some(Ok(32767)));
    assert_eq!(parse_literal("32768"), Some(Err(AsmError::Overflow)));
    assert_eq!(parse_literal("327670"), Some(Err(AsmError::Overflow)));
    assert_eq!(parse_literal("18446744073709551616"), Some(Err(AsmError::Overflow)));
    assert_eq!(parse_literal(""), None);
    assert_eq!(parse_literal("+"), None);
    assert_eq!(parse_literal("-1"), None);
    assert_eq!(parse_literal("++1"), None);
    assert_eq!(parse_literal("1+"), None);
    assert_eq!(parse_literal("12a"), None);
    assert_eq!(parse_literal("99999x"), None);
    assert_eq!(parse_literal("1 "), None);
    assert_eq!(parse_literal("١٢"), None);
    assert_eq!(parse_literal("LOOP"), None);
}
