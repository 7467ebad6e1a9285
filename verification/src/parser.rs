//! The evaluator itself: it reads a text token by token and emits
//! instructions.

use crate::evaluator::{lemma_apply, lemma_expand, lemma_run, EvaluatorState};
use crate::instruction::{Instruction, InstructionView};
use crate::operator::{
    assignment, init_opset, lookup_operator, operator_table, operators_view, Arity, Operator,
};
use crate::register::{init_regset, register_table, registers_view};
use crate::text::{
    chars_of, lemma_offset_of, lemma_split_first, lemma_split_terminator_first, offset, split,
    split_terminator,
};
use crate::value::{temporary, Value, ValueView};
use vstd::prelude::*;
use vstd::slice::slice_subrange;
use vstd::string::*;

verus! {

/// Values as the contracts see them.
pub open spec fn values_view(values: Seq<Value>) -> Seq<ValueView> {
    values.map_values(|v: Value| v@)
}

/// Instructions as the contracts see them.
pub open spec fn instructions_view(insts: Seq<Instruction>) -> Seq<InstructionView> {
    insts.map_values(|i: Instruction| i@)
}

/// An evaluator: a stack of values that no operator has taken yet, and the
/// instructions emitted so far.
pub struct Parser<'a> {
    stack: Vec<Value>,
    insts: Vec<Instruction<'a>>,
    opset: Vec<Operator<'a>>,
    regset: Vec<(&'a str, u8)>,
    tmp_index: u64,
    default_size: u8,
}

impl<'a> View for Parser<'a> {
    type V = EvaluatorState;

    closed spec fn view(&self) -> EvaluatorState {
        EvaluatorState {
            stack: values_view(self.stack@),
            insts: instructions_view(self.insts@),
            counter: self.tmp_index as nat,
            default_size: self.default_size,
        }
    }
}

impl<'a> Parser<'a> {
    /// Whether the tables of the evaluator are those of the language.
    pub closed spec fn tables_in_place(&self) -> bool {
        &&& operators_view(self.opset@) == operator_table()
        &&& registers_view(self.regset@) == register_table()
    }

    /// What holds of every evaluator: its tables are those of the language,
    /// and its instructions are numbered as it numbers them.
    pub open spec fn well_formed(&self) -> bool {
        &&& self.tables_in_place()
        &&& self@.numbered()
    }

    /// An evaluator that has seen nothing yet: its stack is empty, it has
    /// emitted no instruction and made no temporary, and an operand that is
    /// no register is 64 bits wide.
    pub fn new() -> (p: Parser<'a>)
        ensures
            p.well_formed(),
            p@ == EvaluatorState::initial(),
    {
        let p = Parser {
            stack: Vec::new(),
            insts: Vec::new(),
            opset: init_opset(),
            regset: init_regset(),
            tmp_index: 0,
            default_size: 64,
        };
        assert(p@.stack =~= Seq::empty());
        assert(p@.insts =~= Seq::empty());
        p
    }

    /// Makes the next temporary.
    fn get_tmp_register(&mut self) -> (v: Value)
        requires
            old(self).tmp_index < u64::MAX,
        ensures
            final(self).tmp_index == old(self).tmp_index + 1,
            v@ == temporary(final(self).tmp_index as nat),
            final(self).stack == old(self).stack,
            final(self).insts == old(self).insts,
            final(self).opset == old(self).opset,
            final(self).regset == old(self).regset,
            final(self).default_size == old(self).default_size,
    {
        self.tmp_index += 1;
        Value::tmp(self.tmp_index)
    }

    /// Lets the operator `op` work on the stack: it takes its operands from
    /// the top, and one instruction is emitted, whose result is pushed. With
    /// fewer values on the stack than the operator takes, the stack is left
    /// empty and nothing is emitted.
    pub fn add_inst(&mut self, op: Operator<'a>)
        requires
            old(self).well_formed(),
            old(self)@.apply(op@).counter <= u64::MAX,
        ensures
            final(self).well_formed(),
            final(self)@ == old(self)@.apply(op@),
    {
        proof {
            lemma_apply(self@, op@);
        }
        let ghost before = self@;
        let top = match self.stack.pop() {
            Some(value) => value,
            None => {
                assert(self@.stack =~= Seq::empty());
                return;
            },
        };
        let mut below = Value::null();
        let binary = op.arity().n() == 2;
        if binary {
            below = match self.stack.pop() {
                Some(value) => value,
                None => {
                    assert(self@.stack =~= Seq::empty());
                    return;
                },
            };
        }
        let assigns = op.is_assignment();
        let dst: Value = if assigns {
            Value::null()
        } else {
            self.get_tmp_register()
        };
        let inst = if binary && !assigns {
            Instruction::new(op, dst.clone(), below, top)
        } else {
            Instruction::new(op, dst.clone(), top, below)
        };
        self.insts.push(inst);
        self.stack.push(dst);
        assert(self@.stack =~= before.apply(op@).stack);
        assert(self@.insts =~= before.apply(op@).insts);
    }

    /// Lets the operator `op` work on the stack and assigns its result: the
    /// value that was on top comes back above the result, and the assignment
    /// operator works on the two.
    fn apply_and_assign(&mut self, op: Operator<'a>)
        requires
            old(self).well_formed(),
            old(self)@.apply_and_assign(op@).counter <= u64::MAX,
        ensures
            final(self).well_formed(),
            final(self)@ == old(self)@.apply_and_assign(op@),
    {
        let n = self.stack.len();
        if n > 0 {
            proof {
                reveal_strlit("=");
                lemma_apply(self@.apply(op@).push(self@.stack.last()), assignment());
            }
            let dst = self.stack[n - 1].clone();
            self.add_inst(op);
            let ghost applied = self@;
            self.stack.push(dst);
            assert(self@.stack =~= applied.stack.push(dst@));
            let assign = Operator::new("=", Arity::Binary);
            assert(assign@.symbol =~= seq!['=']);
            self.add_inst(assign);
        }
    }

    /// Works through a composite token: what stands between its `=` signs
    /// has to name operators. Says whether it got to the end.
    fn expand(&mut self, token: &[char]) -> (completed: bool)
        requires
            old(self).well_formed(),
            old(self)@.expand(split_terminator(token@, '=')).state.counter <= u64::MAX,
        ensures
            final(self).well_formed(),
            final(self)@ == old(self)@.expand(split_terminator(token@, '=')).state,
            completed == old(self)@.expand(split_terminator(token@, '=')).completed,
    {
        let n = token.len();
        let ghost goal = self@.expand(split_terminator(token@, '='));
        let mut start: usize = 0;
        let mut more = true;
        let mut completed = true;
        assert(token@.skip(0) =~= token@);
        while more
            invariant
                self.well_formed(),
                n == token@.len(),
                start <= n,
                goal.state.counter <= u64::MAX,
                more ==> goal == self@.expand(split_terminator(token@.skip(start as int), '=')),
                more ==> completed,
                !more ==> goal.state == self@ && goal.completed == completed,
            decreases n - start + (if more { 1int } else { 0int }),
        {
            let ghost rest = token@.skip(start as int);
            proof {
                lemma_split_terminator_first(rest, '=');
            }
            if start == n {
                more = false;
            } else {
                let end = offset(token, start, '=');
                let part = slice_subrange(token, start, end);
                assert(part@ =~= rest.take(end - start));
                match lookup_operator(&self.opset, part) {
                    None => {
                        completed = false;
                        more = false;
                    },
                    Some(op) => {
                        proof {
                            lemma_expand(
                                self@.apply_and_assign(op@),
                                split_terminator(rest, '=').skip(1),
                            );
                        }
                        self.apply_and_assign(op);
                        if end < n {
                            assert(rest.skip(end - start + 1) =~= token@.skip(end + 1));
                            start = end + 1;
                        } else {
                            more = false;
                        }
                    },
                }
            }
        }
        completed
    }

    /// Takes one token: the characters of `esil` from `start` up to `end`,
    /// which `token` holds too. Says whether the evaluator goes on.
    fn step(&mut self, esil: &str, start: usize, end: usize, token: &[char]) -> (completed: bool)
        requires
            old(self).well_formed(),
            start <= end <= esil@.len(),
            token@ == esil@.subrange(start as int, end as int),
            old(self)@.step(token@).state.counter <= u64::MAX,
        ensures
            final(self).well_formed(),
            final(self)@ == old(self)@.step(token@).state,
            completed == old(self)@.step(token@).completed,
    {
        match lookup_operator(&self.opset, token) {
            Some(op) => {
                self.add_inst(op);
                true
            },
            None => {
                proof {
                    lemma_offset_of(token@, '=');
                    assert(token@.skip(0) =~= token@);
                }
                if offset(token, 0, '=') < token.len() {
                    self.expand(token)
                } else {
                    let word = esil.substring_char(start, end);
                    let v = Value::operand(&self.regset, word, self.default_size);
                    self.stack.push(v);
                    assert(self@.stack =~= old(self)@.stack.push(v@));
                    true
                }
            },
        }
    }

    /// Translates `esil`, a list of tokens with commas between them: the
    /// tokens work on the stack one after the other, and the instructions
    /// that they give rise to are added to those emitted before. At a
    /// composite token with a part that names no operator the evaluator
    /// gives up, and what follows in `esil` is left out.
    ///
    /// The temporaries are numbered in 64 bits: the translation must not
    /// take the counter beyond that, which no text does that has fewer
    /// characters than numbers are left.
    pub fn parse(&mut self, esil: &'a str)
        requires
            old(self).well_formed(),
            old(self)@.translate(esil@).counter <= u64::MAX,
        ensures
            final(self).well_formed(),
            final(self)@ == old(self)@.translate(esil@),
    {
        let text = chars_of(esil);
        let n = text.len();
        let ghost goal = self@.translate(esil@);
        let mut start: usize = 0;
        let mut more = true;
        assert(text@.skip(0) =~= text@);
        while more
            invariant
                self.well_formed(),
                text@ == esil@,
                n == text@.len(),
                start <= n,
                goal.counter <= u64::MAX,
                more ==> goal == self@.translate(text@.skip(start as int)),
                !more ==> goal == self@,
            decreases n - start + (if more { 1int } else { 0int }),
        {
            let ghost rest = text@.skip(start as int);
            proof {
                lemma_split_first(rest, ',');
            }
            let end = offset(text.as_slice(), start, ',');
            let token = slice_subrange(text.as_slice(), start, end);
            assert(token@ =~= rest.take(end - start));
            proof {
                if self@.step(token@).completed {
                    lemma_run(self@.step(token@).state, split(rest, ',').skip(1));
                }
            }
            let completed = self.step(esil, start, end, token);
            if completed && end < n {
                assert(rest.skip(end - start + 1) =~= text@.skip(end + 1));
                start = end + 1;
            } else {
                more = false;
            }
        }
    }

    /// A copy of the stack, the top last.
    pub fn stack(&self) -> (values: Vec<Value>)
        ensures
            values_view(values@) == self@.stack,
    {
        let mut values: Vec<Value> = Vec::new();
        let mut i: usize = 0;
        while i < self.stack.len()
            invariant
                i <= self.stack@.len(),
                values_view(values@) == values_view(self.stack@).take(i as int),
            decreases self.stack@.len() - i,
        {
            let ghost copied = values_view(values@);
            let value = self.stack[i].clone();
            values.push(value);
            assert(values_view(values@) =~= copied.push(value@));
            i = i + 1;
        }
        values
    }

    /// The number of the temporary that was made last; 0 before the first.
    pub fn tmp_index(&self) -> (n: u64)
        ensures
            n == self@.counter,
    {
        self.tmp_index
    }

    /// A copy of the instructions emitted so far, oldest first.
    pub fn emit_insts(&self) -> (insts: Vec<Instruction<'a>>)
        ensures
            instructions_view(insts@) == self@.insts,
    {
        let mut insts: Vec<Instruction<'a>> = Vec::new();
        let mut i: usize = 0;
        while i < self.insts.len()
            invariant
                i <= self.insts@.len(),
                instructions_view(insts@) == instructions_view(self.insts@).take(i as int),
            decreases self.insts@.len() - i,
        {
            let ghost copied = instructions_view(insts@);
            let inst = self.insts[i].clone();
            insts.push(inst);
            assert(instructions_view(insts@) =~= copied.push(inst@));
            i = i + 1;
        }
        insts
    }
}

} // verus!
