//! The evaluator as a mathematical object: a stack of values, the
//! instructions emitted so far and the number of the last temporary, with
//! what a token, a list of tokens and a text do to them.

use crate::instruction::InstructionView;
use crate::operator::{assignment, operator_named, Arity, OperatorView};
use crate::text::{split, split_terminator};
use crate::value::{null_value, operand, temporary, ValueView};
use vstd::prelude::*;

verus! {

/// The state of an evaluator.
pub struct EvaluatorState {
    /// The operands and results that no operator has taken yet; the top is
    /// the last one.
    pub stack: Seq<ValueView>,
    /// The instructions emitted so far, oldest first.
    pub insts: Seq<InstructionView>,
    /// The number of the temporary that was made last; 0 before the first.
    pub counter: nat,
    /// The width in bits of an operand that is no register.
    pub default_size: u8,
}

/// A state, and whether the evaluator got there by working through all it
/// was given (`completed`) or gave up on the way.
pub struct Outcome {
    pub state: EvaluatorState,
    pub completed: bool,
}

/// The number of instructions among `insts` that are no assignment: each of
/// them has a temporary of its own as its result.
pub open spec fn issued(insts: Seq<InstructionView>) -> nat
    decreases insts.len(),
{
    if insts.len() == 0 {
        0
    } else if insts.last().is_assignment() {
        issued(insts.drop_last())
    } else {
        issued(insts.drop_last()) + 1
    }
}

/// The number of values that an operator takes off the stack: two where it
/// is binary, one otherwise.
pub open spec fn taken(op: OperatorView) -> nat {
    if op.arity == Arity::Binary {
        2
    } else {
        1
    }
}

impl EvaluatorState {
    /// An evaluator that has seen nothing yet.
    pub open spec fn initial() -> EvaluatorState {
        EvaluatorState { stack: Seq::empty(), insts: Seq::empty(), counter: 0, default_size: 64 }
    }

    /// The state with `v` on top of the stack.
    pub open spec fn push(self, v: ValueView) -> EvaluatorState {
        EvaluatorState { stack: self.stack.push(v), ..self }
    }

    /// The state after one instruction with operator `op` and the operands
    /// `first` and `second`, which leaves `rest` of the stack below its
    /// result. An assignment has the null value as its result and makes no
    /// temporary; any other operator's result is the next temporary.
    pub open spec fn emit(
        self,
        op: OperatorView,
        first: ValueView,
        second: ValueView,
        rest: Seq<ValueView>,
    ) -> EvaluatorState {
        let counter = if op.is_assignment() {
            self.counter
        } else {
            self.counter + 1
        };
        let dest = if op.is_assignment() {
            null_value()
        } else {
            temporary(counter)
        };
        EvaluatorState {
            stack: rest.push(dest),
            insts: self.insts.push(
                InstructionView { opcode: op, dest, operand_1: first, operand_2: second },
            ),
            counter,
            default_size: self.default_size,
        }
    }

    /// The state after the operator `op` has worked on the stack.
    ///
    /// A binary operator takes the two topmost values. Its operands keep the
    /// order in which they were pushed: the lower value is `operand_1`, the
    /// top one `operand_2`. The assignment operator alone has them the other
    /// way round: the top value is what it assigns to, `operand_1`, and the
    /// value below it is what it stores, `operand_2`. Any other operator
    /// takes the top value as `operand_1` and has the null value as
    /// `operand_2`. The result takes the place of the operands on the stack.
    ///
    /// Where the stack holds fewer values than the operator takes, no
    /// instruction is emitted, and the stack is left empty.
    pub open spec fn apply(self, op: OperatorView) -> EvaluatorState {
        let n = self.stack.len() as int;
        if n < taken(op) {
            EvaluatorState { stack: Seq::empty(), ..self }
        } else if op.arity != Arity::Binary {
            self.emit(op, self.stack[n - 1], null_value(), self.stack.take(n - 1))
        } else if op.is_assignment() {
            self.emit(op, self.stack[n - 1], self.stack[n - 2], self.stack.take(n - 2))
        } else {
            self.emit(op, self.stack[n - 2], self.stack[n - 1], self.stack.take(n - 2))
        }
    }

    /// The state after `op` has worked on the stack and its result has been
    /// assigned to the value that was on top before. That value is put back
    /// above the result of `op`, and the assignment operator then works on
    /// the two: it stores the result in that value. On an empty stack there
    /// is no such value and nothing happens.
    pub open spec fn apply_and_assign(self, op: OperatorView) -> EvaluatorState {
        if self.stack.len() == 0 {
            self
        } else {
            self.apply(op).push(self.stack.last()).apply(assignment())
        }
    }

    /// The outcome of a composite token, given the parts between its `=`
    /// signs. Each part has to name an operator, which then works and has
    /// its result assigned; at the first part that names none, the
    /// evaluator gives up.
    pub open spec fn expand(self, parts: Seq<Seq<char>>) -> Outcome
        decreases parts.len(),
    {
        if parts.len() == 0 {
            Outcome { state: self, completed: true }
        } else {
            match operator_named(parts[0]) {
                Some(op) => self.apply_and_assign(op).expand(parts.skip(1)),
                None => Outcome { state: self, completed: false },
            }
        }
    }

    /// The outcome of one token. A token that names an operator has that
    /// operator work on the stack. Any other token without a `=` is an
    /// operand and is pushed. What is left is a composite token.
    pub open spec fn step(self, token: Seq<char>) -> Outcome {
        match operator_named(token) {
            Some(op) => Outcome { state: self.apply(op), completed: true },
            None => if token.contains('=') {
                self.expand(split_terminator(token, '='))
            } else {
                Outcome { state: self.push(operand(token, self.default_size)), completed: true }
            },
        }
    }

    /// The outcome of a list of tokens, taken in order up to the end or to
    /// the first token at which the evaluator gives up.
    pub open spec fn run(self, tokens: Seq<Seq<char>>) -> Outcome
        decreases tokens.len(),
    {
        if tokens.len() == 0 {
            Outcome { state: self, completed: true }
        } else {
            let first = self.step(tokens[0]);
            if first.completed {
                first.state.run(tokens.skip(1))
            } else {
                first
            }
        }
    }

    /// The state after the translation of `text`, whose tokens are what
    /// stands between its commas.
    pub open spec fn translate(self, text: Seq<char>) -> EvaluatorState {
        self.run(split(text, ',')).state
    }

    /// Whether the translation of `text` gets to the end of it.
    pub open spec fn completes(self, text: Seq<char>) -> bool {
        self.run(split(text, ',')).completed
    }

    /// Whether the results of the instructions are numbered as an evaluator
    /// numbers them: an assignment has the null value as its result; the
    /// first other instruction has the temporary 1, the next one the
    /// temporary 2, and so on up to the counter.
    pub open spec fn numbered(self) -> bool {
        &&& self.counter == issued(self.insts)
        &&& forall|k: int|
            0 <= k < self.insts.len() ==> (#[trigger] self.insts[k]).dest == if self.insts[k].is_assignment() {
                null_value()
            } else {
                temporary(issued(self.insts.take(k + 1)))
            }
    }
}

/// An operator keeps the numbering, and takes the counter up by one at most.
pub proof fn lemma_apply(s: EvaluatorState, op: OperatorView)
    ensures
        s.numbered() ==> s.apply(op).numbered(),
        s.counter <= s.apply(op).counter <= s.counter + 1,
        s.apply(op).default_size == s.default_size,
        s.insts.is_prefix_of(s.apply(op).insts),
{
    let r = s.apply(op);
    if s.stack.len() >= taken(op) {
        assert(r.insts.drop_last() =~= s.insts);
        if s.numbered() {
            assert forall|k: int| 0 <= k < r.insts.len() implies (#[trigger] r.insts[k]).dest
                == if r.insts[k].is_assignment() {
                null_value()
            } else {
                temporary(issued(r.insts.take(k + 1)))
            } by {
                if k < s.insts.len() {
                    assert(r.insts.take(k + 1) =~= s.insts.take(k + 1));
                } else {
                    assert(r.insts.take(k + 1) =~= r.insts);
                }
            }
        }
    }
}

/// An operator with the assignment of its result keeps the numbering, and
/// takes the counter up by one at most.
pub proof fn lemma_apply_and_assign(s: EvaluatorState, op: OperatorView)
    ensures
        s.numbered() ==> s.apply_and_assign(op).numbered(),
        s.counter <= s.apply_and_assign(op).counter <= s.counter + 1,
        s.apply_and_assign(op).default_size == s.default_size,
        s.insts.is_prefix_of(s.apply_and_assign(op).insts),
{
    if s.stack.len() > 0 {
        let a = s.apply(op);
        let b = a.push(s.stack.last());
        lemma_apply(s, op);
        lemma_apply(b, assignment());
    }
}

/// A composite token keeps the numbering, and takes the counter up by one
/// for each of its parts at most.
pub proof fn lemma_expand(s: EvaluatorState, parts: Seq<Seq<char>>)
    ensures
        s.numbered() ==> s.expand(parts).state.numbered(),
        s.counter <= s.expand(parts).state.counter <= s.counter + parts.len(),
        s.expand(parts).state.default_size == s.default_size,
        s.insts.is_prefix_of(s.expand(parts).state.insts),
    decreases parts.len(),
{
    if parts.len() > 0 {
        if let Some(op) = operator_named(parts[0]) {
            lemma_apply_and_assign(s, op);
            lemma_expand(s.apply_and_assign(op), parts.skip(1));
        }
    }
}

/// One token keeps the numbering, adds to the instructions without
/// touching those that are there, and never takes the counter down.
pub proof fn lemma_step(s: EvaluatorState, token: Seq<char>)
    ensures
        s.numbered() ==> s.step(token).state.numbered(),
        s.counter <= s.step(token).state.counter,
        s.insts.is_prefix_of(s.step(token).state.insts),
{
    match operator_named(token) {
        Some(op) => {
            lemma_apply(s, op);
        },
        None => {
            if token.contains('=') {
                lemma_expand(s, split_terminator(token, '='));
            }
        },
    }
}

/// A list of tokens keeps the numbering, adds to the instructions without
/// touching those that are there, and never takes the counter down.
pub proof fn lemma_run(s: EvaluatorState, tokens: Seq<Seq<char>>)
    ensures
        s.numbered() ==> s.run(tokens).state.numbered(),
        s.counter <= s.run(tokens).state.counter,
        s.insts.is_prefix_of(s.run(tokens).state.insts),
    decreases tokens.len(),
{
    if tokens.len() > 0 {
        lemma_step(s, tokens[0]);
        let first = s.step(tokens[0]);
        if first.completed {
            lemma_run(first.state, tokens.skip(1));
        }
    }
}

} // verus!
