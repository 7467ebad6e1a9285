//! Instructions: one step of an evaluation, with at most two operands.

use crate::operator::{Operator, OperatorView};
use crate::value::{Value, ValueView};
use vstd::prelude::*;
use vstd::string::*;

verus! {

/// An instruction as the contracts see it.
pub struct InstructionView {
    pub opcode: OperatorView,
    pub dest: ValueView,
    pub operand_1: ValueView,
    pub operand_2: ValueView,
}

impl InstructionView {
    /// Whether the instruction is an assignment: it stores `operand_2` in
    /// `operand_1` and has no result of its own.
    pub open spec fn is_assignment(self) -> bool {
        self.opcode.is_assignment()
    }

    /// The instruction as text. An assignment reads `operand_1 = operand_2`;
    /// any other instruction reads `dest = operand_1 symbol operand_2`.
    pub open spec fn render(self) -> Seq<char> {
        if self.is_assignment() {
            self.operand_1.name + seq![' ', '=', ' '] + self.operand_2.name
        } else {
            self.dest.name + seq![' ', '=', ' '] + self.operand_1.name + seq![' ']
                + self.opcode.symbol + seq![' '] + self.operand_2.name
        }
    }
}

/// One step of an evaluation: `dest = operand_1 opcode operand_2`.
#[derive(Debug)]
pub struct Instruction<'a> {
    opcode: Operator<'a>,
    dest: Value,
    operand_1: Value,
    operand_2: Value,
}

impl<'a> View for Instruction<'a> {
    type V = InstructionView;

    closed spec fn view(&self) -> InstructionView {
        InstructionView {
            opcode: self.opcode@,
            dest: self.dest@,
            operand_1: self.operand_1@,
            operand_2: self.operand_2@,
        }
    }
}

impl<'a> Clone for Instruction<'a> {
    fn clone(&self) -> (r: Self)
        ensures
            r@ == self@,
    {
        Instruction {
            opcode: self.opcode,
            dest: self.dest.clone(),
            operand_1: self.operand_1.clone(),
            operand_2: self.operand_2.clone(),
        }
    }
}

impl<'a> Instruction<'a> {
    /// The instruction with these fields.
    pub fn new(opcode: Operator<'a>, dest: Value, op1: Value, op2: Value) -> (r: Instruction<'a>)
        ensures
            r@ == (InstructionView {
                opcode: opcode@,
                dest: dest@,
                operand_1: op1@,
                operand_2: op2@,
            }),
    {
        Instruction { opcode: opcode, dest: dest, operand_1: op1, operand_2: op2 }
    }

    /// The instruction as text: `operand_1 = operand_2` for an assignment,
    /// `dest = operand_1 symbol operand_2` for any other instruction.
    pub fn to_string(&self) -> (s: String)
        ensures
            s@ == self@.render(),
    {
        proof {
            reveal_strlit(" = ");
            reveal_strlit(" ");
        }
        let mut s = String::new();
        if self.opcode.is_assignment() {
            s.append(self.operand_1.name());
            s.append(" = ");
            s.append(self.operand_2.name());
        } else {
            s.append(self.dest.name());
            s.append(" = ");
            s.append(self.operand_1.name());
            s.append(" ");
            s.append(self.opcode.symbol());
            s.append(" ");
            s.append(self.operand_2.name());
        }
        s
    }

    /// The operator of the instruction.
    pub fn opcode(&self) -> (op: Operator<'a>)
        ensures
            op@ == self@.opcode,
    {
        self.opcode
    }

    /// The result of the instruction.
    pub fn dest(&self) -> (v: &Value)
        ensures
            v@ == self@.dest,
    {
        &self.dest
    }

    /// The first operand of the instruction.
    pub fn operand_1(&self) -> (v: &Value)
        ensures
            v@ == self@.operand_1,
    {
        &self.operand_1
    }

    /// The second operand of the instruction.
    pub fn operand_2(&self) -> (v: &Value)
        ensures
            v@ == self@.operand_2,
    {
        &self.operand_2
    }
}

} // verus!
