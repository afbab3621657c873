//! The symbol table: names bound to addresses, and the counter that hands out
//! addresses to variables.

use crate::error::AsmError;
use crate::text::to_chars;
use vstd::hash_map::StringHashMap;
use vstd::prelude::*;

verus! {

/// The largest address of either memory.
pub const MAX_ADDRESS: u16 = 32767;

/// The address of the first variable.
pub const FIRST_VARIABLE: u16 = 16;

/// Whether `c` is a decimal digit.
pub open spec fn is_digit(c: char) -> bool {
    '0' <= c <= '9'
}

/// The number a string of decimal digits is read as.
pub open spec fn decimal_value(digits: Seq<char>) -> nat
    decreases digits.len(),
{
    if digits.len() == 0 {
        0
    } else {
        (10 * decimal_value(digits.drop_last()) + (digits.last() as int - '0' as int)) as nat
    }
}

/// A token without its leading plus sign, if it has one.
pub open spec fn unsigned_part(token: Seq<char>) -> Seq<char> {
    if token.len() > 0 && token[0] == '+' {
        token.drop_first()
    } else {
        token
    }
}

/// Whether a token is an integer literal: one or more decimal digits, with or
/// without a plus sign before them. Every other token is a symbol.
pub open spec fn is_literal(token: Seq<char>) -> bool {
    let digits = unsigned_part(token);
    digits.len() > 0 && forall|i: int| 0 <= i < digits.len() ==> is_digit(#[trigger] digits[i])
}

/// The number an integer literal is read as.
pub open spec fn literal_value(token: Seq<char>) -> nat {
    decimal_value(unsigned_part(token))
}

/// The names every program starts with.
pub open spec fn predefined() -> Map<Seq<char>, u16> {
    map![
        "SP"@ => 0u16,
        "LCL"@ => 1u16,
        "ARG"@ => 2u16,
        "THIS"@ => 3u16,
        "THAT"@ => 4u16,
        "R0"@ => 0u16,
        "R1"@ => 1u16,
        "R2"@ => 2u16,
        "R3"@ => 3u16,
        "R4"@ => 4u16,
        "R5"@ => 5u16,
        "R6"@ => 6u16,
        "R7"@ => 7u16,
        "R8"@ => 8u16,
        "R9"@ => 9u16,
        "R10"@ => 10u16,
        "R11"@ => 11u16,
        "R12"@ => 12u16,
        "R13"@ => 13u16,
        "R14"@ => 14u16,
        "R15"@ => 15u16,
        "SCREEN"@ => 16384u16,
        "KBD"@ => 24576u16,
    ]
}

/// What a symbol table holds: the bound names, and the address that the next
/// new variable gets.
pub struct Symbols {
    pub bound: Map<Seq<char>, u16>,
    pub next: nat,
}

impl Symbols {
    /// Finitely many names are bound, every address lies in `0..=MAX_ADDRESS`,
    /// and the variable counter is at most one past `MAX_ADDRESS`.
    pub open spec fn valid(self) -> bool {
        &&& self.bound.dom().finite()
        &&& self.next <= MAX_ADDRESS + 1
        &&& forall|name: Seq<char>| #[trigger]
            self.bound.contains_key(name) ==> self.bound[name] <= MAX_ADDRESS
    }

    /// The table of a fresh run.
    pub open spec fn initial() -> Symbols {
        Symbols { bound: predefined(), next: FIRST_VARIABLE as nat }
    }

    /// Binds `name` to `address`, replacing an earlier binding of `name`.
    pub open spec fn declare(self, name: Seq<char>, address: u16) -> Symbols {
        Symbols { bound: self.bound.insert(name, address), next: self.next }
    }

    /// The address bound to `name`, or 0 for an unbound name.
    pub open spec fn address_of(self, name: Seq<char>) -> u16 {
        if self.bound.contains_key(name) {
            self.bound[name]
        } else {
            0
        }
    }

    /// The table after a new variable took the address `self.next`.
    pub open spec fn allocate(self, name: Seq<char>) -> Symbols {
        Symbols { bound: self.bound.insert(name, self.next as u16), next: self.next + 1 }
    }

    /// The address of the token of an address instruction, and the table after
    /// it was resolved.
    ///
    /// A literal is its own address and must not exceed `MAX_ADDRESS`. A bound
    /// symbol has the address it is bound to. An unbound symbol becomes a
    /// variable: it is bound to `self.next`, which then moves up by one, unless
    /// the data memory is used up.
    pub open spec fn resolve(self, token: Seq<char>) -> (Result<u16, AsmError>, Symbols) {
        if is_literal(token) {
            if literal_value(token) <= MAX_ADDRESS {
                (Ok(literal_value(token) as u16), self)
            } else {
                (Err(AsmError::Overflow), self)
            }
        } else if self.bound.contains_key(token) {
            (Ok(self.bound[token]), self)
        } else if self.next <= MAX_ADDRESS {
            (Ok(self.next as u16), self.allocate(token))
        } else {
            (Err(AsmError::AddressSpaceExhausted), self)
        }
    }
}

/// The fresh table is valid.
pub proof fn lemma_initial_valid()
    ensures
        Symbols::initial().valid(),
{
}

/// Resolving a token keeps a table valid, and a resolved address is in range.
pub proof fn lemma_resolve_valid(symbols: Symbols, token: Seq<char>)
    requires
        symbols.valid(),
    ensures
        symbols.resolve(token).1.valid(),
        symbols.resolve(token).0 matches Ok(address) ==> address <= MAX_ADDRESS,
{
}

/// Reads `token` as an integer literal: `None` for a symbol, else the value,
/// or `Overflow` for a value above `MAX_ADDRESS`.
pub fn parse_literal(token: &str) -> (parsed: Option<Result<u16, AsmError>>)
    ensures
        parsed is Some <==> is_literal(token@),
        parsed matches Some(Ok(value)) ==> value == literal_value(token@) && value <= MAX_ADDRESS,
        parsed matches Some(Err(e)) ==> e == AsmError::Overflow && literal_value(token@)
            > MAX_ADDRESS,
{
    let chars = to_chars(token);
    let n = chars.len();
    let start: usize = if n > 0 && chars[0] == '+' {
        1
    } else {
        0
    };
    if start == n {
        return None;
    }
    let ghost digits = unsigned_part(token@);
    let mut value: u16 = 0;
    let mut too_large = false;
    let mut i: usize = start;
    while i < n
        invariant
            start <= i <= n,
            n == chars.len(),
            digits == unsigned_part(token@),
            digits == chars@.subrange(start as int, n as int),
            forall|j: int| 0 <= j < i - start ==> is_digit(#[trigger] digits[j]),
            !too_large ==> value == decimal_value(digits.take(i - start)) && value <= MAX_ADDRESS,
            too_large ==> decimal_value(digits.take(i - start)) > MAX_ADDRESS,
        decreases n - i,
    {
        let c = chars[i];
        if c < '0' || c > '9' {
            assert(!is_digit(digits[i - start]));
            return None;
        }
        assert(digits.take(i - start + 1).drop_last() =~= digits.take(i - start));
        if !too_large {
            let digit: u32 = c as u32 - '0' as u32;
            let wide: u32 = 10 * (value as u32) + digit;
            if wide > MAX_ADDRESS as u32 {
                too_large = true;
            } else {
                value = wide as u16;
            }
        }
        i += 1;
    }
    assert(digits.take(n - start) =~= digits);
    if too_large {
        Some(Err(AsmError::Overflow))
    } else {
        Some(Ok(value))
    }
}

/// The symbol table of one run.
pub struct Table {
    symbol_table: StringHashMap<u16>,
    next_rom: u16,
}

impl View for Table {
    type V = Symbols;

    closed spec fn view(&self) -> Symbols {
        Symbols { bound: self.symbol_table@, next: self.next_rom as nat }
    }
}

impl Table {
    /// Well-formedness: what the table holds is valid.
    pub open spec fn wf(&self) -> bool {
        self@.valid()
    }

    /// A table with the predefined names, whose first variable gets
    /// `FIRST_VARIABLE`.
    pub fn new() -> (table: Self)
        ensures
            table@ == Symbols::initial(),
            table.wf(),
    {
        let mut symbol_table: StringHashMap<u16> = StringHashMap::new();
        symbol_table.insert(String::from_str("SP"), 0);
        symbol_table.insert(String::from_str("LCL"), 1);
        symbol_table.insert(String::from_str("ARG"), 2);
        symbol_table.insert(String::from_str("THIS"), 3);
        symbol_table.insert(String::from_str("THAT"), 4);
        symbol_table.insert(String::from_str("R0"), 0);
        symbol_table.insert(String::from_str("R1"), 1);
        symbol_table.insert(String::from_str("R2"), 2);
        symbol_table.insert(String::from_str("R3"), 3);
        symbol_table.insert(String::from_str("R4"), 4);
        symbol_table.insert(String::from_str("R5"), 5);
        symbol_table.insert(String::from_str("R6"), 6);
        symbol_table.insert(String::from_str("R7"), 7);
        symbol_table.insert(String::from_str("R8"), 8);
        symbol_table.insert(String::from_str("R9"), 9);
        symbol_table.insert(String::from_str("R10"), 10);
        symbol_table.insert(String::from_str("R11"), 11);
        symbol_table.insert(String::from_str("R12"), 12);
        symbol_table.insert(String::from_str("R13"), 13);
        symbol_table.insert(String::from_str("R14"), 14);
        symbol_table.insert(String::from_str("R15"), 15);
        symbol_table.insert(String::from_str("SCREEN"), 16384);
        symbol_table.insert(String::from_str("KBD"), 24576);
        proof {
            lemma_initial_valid();
        }
        Table { symbol_table, next_rom: FIRST_VARIABLE }
    }

    /// Binds `name` to `line`; an earlier binding of `name` is replaced.
    pub fn insert(&mut self, name: String, line: u16)
        requires
            old(self).wf(),
            line <= MAX_ADDRESS,
        ensures
            final(self)@ == old(self)@.declare(name@, line),
            final(self).wf(),
    {
        self.symbol_table.insert(name, line);
    }

    /// The address bound to `name`, or 0 when `name` is unbound.
    pub fn get_addr(&mut self, name: &str) -> (address: u16)
        ensures
            address == old(self)@.address_of(name@),
            *final(self) == *old(self),
    {
        match self.symbol_table.get(name) {
            Some(address) => *address,
            None => 0,
        }
    }

    /// Whether `name` is bound.
    pub fn contains(&mut self, name: &str) -> (bound: bool)
        ensures
            bound == old(self)@.bound.contains_key(name@),
            *final(self) == *old(self),
    {
        self.symbol_table.contains_key(name)
    }

    /// Hands out the next variable address and moves the counter up by one.
    pub fn get_next_rom(&mut self) -> (address: u16)
        requires
            old(self).wf(),
            old(self)@.next <= MAX_ADDRESS,
        ensures
            address == old(self)@.next,
            final(self)@ == (Symbols { bound: old(self)@.bound, next: old(self)@.next + 1 }),
            final(self).wf(),
    {
        let cur = self.next_rom;
        self.next_rom += 1;
        cur
    }

    /// The number of bound names.
    pub fn len(&self) -> (count: usize)
        ensures
            count == self@.bound.len(),
    {
        self.symbol_table.len()
    }

    /// Resolves the token of an address instruction to its address.
    ///
    /// A literal is returned as it is, or refused with `Overflow` above
    /// `MAX_ADDRESS`. A bound symbol gives its address. An unbound symbol is
    /// bound to the next variable address, or refused with
    /// `AddressSpaceExhausted` when none is left.
    pub fn resolve_or_allocate(&mut self, token: &str) -> (address: Result<u16, AsmError>)
        requires
            old(self).wf(),
        ensures
            (address, final(self)@) == old(self)@.resolve(token@),
            is_literal(token@) || old(self)@.bound.contains_key(token@) || address is Err
                ==> *final(self) == *old(self),
            final(self).wf(),
            address matches Ok(value) ==> value <= MAX_ADDRESS,
    {
        proof {
            lemma_resolve_valid(self@, token@);
        }
        match parse_literal(token) {
            Some(literal) => literal,
            None => {
                if self.contains(token) {

                    Ok(self.get_addr(token))
                } else if self.next_rom <= MAX_ADDRESS {
                    let address = self.get_next_rom();
                    self.insert(String::from_str(token), address);
                    Ok(address)
                } else {
                    Err(AsmError::AddressSpaceExhausted)
                }
            },
        }
    }
}

} // verus!
