//! Values: the operands and results of instructions.

use crate::numeral::{append_hex, decimal, hex, parse_decimal};
use crate::register::{find_register, lookup_register, register_table, registers_view};
use crate::text::chars_of;
use vstd::prelude::*;
use vstd::string::*;

verus! {

/// Where a value lives.
#[derive(Debug, Clone, Copy, PartialEq, Eq, Structural)]
pub enum Location {
    Memory,
    Register,
    Constant,
    Temporary,
    Unknown,
    Null,
}

/// A value as the contracts see it.
pub struct ValueView {
    pub name: Seq<char>,
    pub size: u8,
    pub location: Location,
    pub value: i64,
    pub typeset: u32,
}

/// The value that stands for "no operand".
pub open spec fn null_value() -> ValueView {
    ValueView { name: Seq::empty(), size: 0, location: Location::Null, value: 0, typeset: 0 }
}

/// The name of the temporary with number `i`: `tmp_`, then `i` in
/// hexadecimal.
pub open spec fn temporary_name(i: nat) -> Seq<char> {
    seq!['t', 'm', 'p', '_'] + hex(i)
}

/// The temporary with number `i`.
pub open spec fn temporary(i: nat) -> ValueView {
    ValueView {
        name: temporary_name(i),
        size: 0,
        location: Location::Temporary,
        value: 0,
        typeset: 0,
    }
}

/// The operand that `token` stands for, given a table of registers and the
/// width of what is no register. A register's name gives a register of the
/// register's width; failing that, a decimal integer gives a constant with
/// that value; anything else is an operand of unknown kind. The token is the
/// operand's name in every case.
pub open spec fn operand_in(
    registers: Seq<(Seq<char>, u8)>,
    token: Seq<char>,
    default_size: u8,
) -> ValueView {
    match find_register(registers, token) {
        Some(width) => ValueView {
            name: token,
            size: width,
            location: Location::Register,
            value: 0,
            typeset: 0,
        },
        None => match decimal(token) {
            Some(literal) => ValueView {
                name: token,
                size: default_size,
                location: Location::Constant,
                value: literal,
                typeset: 0,
            },
            None => ValueView {
                name: token,
                size: default_size,
                location: Location::Unknown,
                value: 0,
                typeset: 0,
            },
        },
    }
}

/// The operand that `token` stands for with the registers of the language.
pub open spec fn operand(token: Seq<char>, default_size: u8) -> ValueView {
    operand_in(register_table(), token, default_size)
}

/// An operand of an instruction, or its result.
#[derive(Debug)]
pub struct Value {
    /// Name.
    name: String,
    /// Size in bits.
    size: u8,
    /// Where the value lives.
    location: Location,
    /// The value, where it is known.
    value: i64,
    /// The set of types that the value may have; not in use, always 0.
    typeset: u32,
}

impl View for Value {
    type V = ValueView;

    closed spec fn view(&self) -> ValueView {
        ValueView {
            name: self.name@,
            size: self.size,
            location: self.location,
            value: self.value,
            typeset: self.typeset,
        }
    }
}

impl Clone for Value {
    fn clone(&self) -> (r: Self)
        ensures
            r@ == self@,
    {
        Value {
            name: self.name.clone(),
            size: self.size,
            location: self.location,
            value: self.value,
            typeset: self.typeset,
        }
    }
}

impl Value {
    /// The value with these fields.
    pub fn new(name: String, size: u8, location: Location, value: i64, typeset: u32) -> (v: Value)
        ensures
            v@ == (ValueView { name: name@, size, location, value, typeset }),
    {
        Value { name: name, size: size, location: location, value: value, typeset: typeset }
    }

    /// The value that stands for "no operand".
    pub fn null() -> (v: Value)
        ensures
            v@ == null_value(),
    {
        Value::new(String::new(), 0, Location::Null, 0, 0)
    }

    /// The temporary with number `i`.
    pub fn tmp(i: u64) -> (v: Value)
        ensures
            v@ == temporary(i as nat),
    {
        proof {
            reveal_strlit("tmp_");
        }
        let mut name = String::from_str("tmp_");
        assert(name@ =~= seq!['t', 'm', 'p', '_']);
        append_hex(&mut name, i);
        Value::new(name, 0, Location::Temporary, 0, 0)
    }

    /// The operand that the token `word` stands for, with the registers of
    /// `registers` and `default_size` as the width of what is no register.
    pub fn operand(registers: &Vec<(&str, u8)>, word: &str, default_size: u8) -> (v: Value)
        ensures
            v@ == operand_in(registers_view(registers@), word@, default_size),
    {
        let token = chars_of(word);
        let name = String::from_str(word);
        match lookup_register(registers, token.as_slice()) {
            Some(width) => Value::new(name, width, Location::Register, 0, 0),
            None => match parse_decimal(token.as_slice()) {
                Some(literal) => Value::new(name, default_size, Location::Constant, literal, 0),
                None => Value::new(name, default_size, Location::Unknown, 0, 0),
            },
        }
    }

    /// The name of the value.
    pub fn name(&self) -> (s: &str)
        ensures
            s@ == self@.name,
    {
        self.name.as_str()
    }

    /// The width of the value in bits.
    pub fn size(&self) -> (n: u8)
        ensures
            n == self@.size,
    {
        self.size
    }

    /// Where the value lives.
    pub fn location(&self) -> (l: Location)
        ensures
            l == self@.location,
    {
        self.location
    }

    /// The number that the value holds, where it is a constant; else 0.
    pub fn value(&self) -> (n: i64)
        ensures
            n == self@.value,
    {
        self.value
    }

    /// The set of types that the value may have; not in use, always 0.
    pub fn typeset(&self) -> (n: u32)
        ensures
            n == self@.typeset,
    {
        self.typeset
    }
}

} // verus!
