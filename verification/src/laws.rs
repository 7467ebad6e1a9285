//! What holds of every translation.

use crate::evaluator::{
    issued, lemma_apply, lemma_apply_and_assign, lemma_run, taken, EvaluatorState,
};
use crate::instruction::InstructionView;
use crate::numeral::lemma_hex_injective;
use crate::operator::{
    assignment, lemma_find_operator, lemma_operator_named, operator_named, operator_table, Arity,
    OperatorView,
};
use crate::text::{
    join, lemma_offset_of, lemma_offset_of_unique, lemma_split_first,
    lemma_split_terminator_first, offset_of, split, split_terminator,
};
use crate::value::{null_value, operand, temporary, temporary_name};
use vstd::prelude::*;

verus! {

/// Whether `token` is an operand: it names no operator and holds no `=`.
pub open spec fn is_operand_token(token: Seq<char>) -> bool {
    operator_named(token) is None && !token.contains('=')
}

/// Whether `token` names a binary operator of the language.
pub open spec fn is_binary_token(token: Seq<char>) -> bool {
    match operator_named(token) {
        Some(op) => op.arity == Arity::Binary,
        None => false,
    }
}

/// Whether `tokens` holds operands and binary operators only.
pub open spec fn plain(tokens: Seq<Seq<char>>) -> bool {
    forall|i: int|
        0 <= i < tokens.len() ==> is_operand_token(#[trigger] tokens[i]) || is_binary_token(
            tokens[i],
        )
}

/// The height of the stack when the token at index `i` is met: after the
/// `i` tokens before it.
pub open spec fn height_at(s: EvaluatorState, tokens: Seq<Seq<char>>, i: int) -> nat {
    s.run(tokens.take(i)).state.stack.len()
}

/// Whether the token at index `i` is a binary operator that finds fewer
/// than two values on the stack.
pub open spec fn underflows_at(s: EvaluatorState, tokens: Seq<Seq<char>>, i: int) -> bool {
    is_binary_token(tokens[i]) && height_at(s, tokens, i) < 2
}

/// The number of operands among the first `k` tokens.
pub open spec fn operands_among(tokens: Seq<Seq<char>>, k: int) -> nat
    decreases k,
{
    if k <= 0 {
        0
    } else if is_operand_token(tokens[k - 1]) {
        operands_among(tokens, k - 1) + 1
    } else {
        operands_among(tokens, k - 1)
    }
}

/// The number of binary operators among the first `k` tokens that find
/// their two operands.
pub open spec fn applied_among(s: EvaluatorState, tokens: Seq<Seq<char>>, k: int) -> nat
    decreases k,
{
    if k <= 0 {
        0
    } else if is_binary_token(tokens[k - 1]) && !underflows_at(s, tokens, k - 1) {
        applied_among(s, tokens, k - 1) + 1
    } else {
        applied_among(s, tokens, k - 1)
    }
}

/// The number of binary operators among the first `k` tokens that find
/// exactly one value on the stack, which is then lost.
pub open spec fn lost_among(s: EvaluatorState, tokens: Seq<Seq<char>>, k: int) -> nat
    decreases k,
{
    if k <= 0 {
        0
    } else if is_binary_token(tokens[k - 1]) && height_at(s, tokens, k - 1) == 1 {
        lost_among(s, tokens, k - 1) + 1
    } else {
        lost_among(s, tokens, k - 1)
    }
}

/// Whether none of the first `k` tokens is an operator that finds too few
/// values.
pub open spec fn no_underflow_among(s: EvaluatorState, tokens: Seq<Seq<char>>, k: int) -> bool {
    forall|i: int| 0 <= i < k ==> !underflows_at(s, tokens, i)
}

/// The number of binary operators among the first `k` tokens that stand
/// before the first operator that finds too few values.
pub open spec fn operators_before_underflow(
    s: EvaluatorState,
    tokens: Seq<Seq<char>>,
    k: int,
) -> nat
    decreases k,
{
    if k <= 0 {
        0
    } else if is_binary_token(tokens[k - 1]) && no_underflow_among(s, tokens, k) {
        operators_before_underflow(s, tokens, k - 1) + 1
    } else {
        operators_before_underflow(s, tokens, k - 1)
    }
}

/// A text without the delimiter is one piece.
pub proof fn lemma_split_single(t: Seq<char>, c: char)
    requires
        !t.contains(c),
    ensures
        split(t, c) == seq![t],
{
    lemma_offset_of(t, c);
}

/// The pieces of two texts with a delimiter between them are the pieces of
/// the first and then those of the second.
pub proof fn lemma_split_concat(a: Seq<char>, b: Seq<char>, c: char)
    ensures
        split(a + seq![c] + b, c) == split(a, c) + split(b, c),
    decreases a.len(),
{
    let whole = a + seq![c] + b;
    let k = offset_of(a, c) as int;
    lemma_offset_of(a, c);
    lemma_offset_of_unique(whole, c, k);
    assert(whole.take(k) =~= a.take(k));
    if k < a.len() {
        let tail = a.skip(k + 1);
        assert(whole.skip(k + 1) =~= tail + seq![c] + b);
        lemma_split_concat(tail, b, c);
        assert(seq![a.take(k)] + (split(tail, c) + split(b, c)) =~= (seq![a.take(k)] + split(
            tail,
            c,
        )) + split(b, c));
    } else {
        assert(whole.skip(k + 1) =~= b);
        assert(a.take(k) =~= a);
    }
}

/// Two lists of tokens, one after the other, do what the first does and
/// then, if the evaluator has not given up, what the second does.
pub proof fn lemma_run_concat(s: EvaluatorState, a: Seq<Seq<char>>, b: Seq<Seq<char>>)
    ensures
        s.run(a + b) == if s.run(a).completed {
            s.run(a).state.run(b)
        } else {
            s.run(a)
        },
    decreases a.len(),
{
    if a.len() > 0 {
        assert((a + b).skip(1) =~= a.skip(1) + b);
        let first = s.step(a[0]);
        if first.completed {
            lemma_run_concat(first.state, a.skip(1), b);
        }
    }
}

/// No piece holds the delimiter, and the pieces joined by it give the text
/// back: `split` loses nothing.
pub proof fn law_split_loses_nothing(s: Seq<char>, c: char)
    ensures
        forall|i: int| 0 <= i < split(s, c).len() ==> !(#[trigger] split(s, c)[i]).contains(c),
        join(split(s, c), c) == s,
    decreases s.len(),
{
    lemma_offset_of(s, c);
    let k = offset_of(s, c) as int;
    if k < s.len() {
        let head = s.take(k);
        let tail = s.skip(k + 1);
        let rest = split(tail, c);
        let all = seq![head] + rest;
        law_split_loses_nothing(tail, c);
        lemma_split_first(tail, c);
        lemma_offset_of(head, c);
        lemma_offset_of_unique(head, c, k);
        assert(all.skip(1) =~= rest);
    }
}

/// An operand is pushed on the stack as it is: a text that is one operand
/// leaves all that was on the stack in its place and adds no instruction.
pub proof fn law_operand_is_pushed(s: EvaluatorState, token: Seq<char>)
    requires
        is_operand_token(token),
        !token.contains(','),
    ensures
        s.completes(token),
        s.translate(token) == s.push(operand(token, s.default_size)),
{
    lemma_split_single(token, ',');
    let next = s.push(operand(token, s.default_size));
    assert(seq![token].skip(1) =~= Seq::<Seq<char>>::empty());
    assert(next.run(Seq::empty()).state == next);
}

/// The operands of a binary operator keep the order in which the text
/// names them: after `a,b,o`, where `a` and `b` are operands and `o` is a
/// binary operator other than the assignment, the one instruction that is
/// added has `a` as `operand_1`, `b` as `operand_2` and a new temporary as
/// its result, and that temporary takes the place of the two on the stack.
pub proof fn law_binary_operand_order(
    s: EvaluatorState,
    a: Seq<char>,
    b: Seq<char>,
    o: Seq<char>,
)
    requires
        is_operand_token(a) && !a.contains(','),
        is_operand_token(b) && !b.contains(','),
        is_binary_token(o) && o != seq!['='],
    ensures
        s.completes(a + seq![','] + b + seq![','] + o),
        s.translate(a + seq![','] + b + seq![','] + o) == (EvaluatorState {
            stack: s.stack.push(temporary(s.counter + 1)),
            insts: s.insts.push(
                InstructionView {
                    opcode: operator_named(o).unwrap(),
                    dest: temporary(s.counter + 1),
                    operand_1: operand(a, s.default_size),
                    operand_2: operand(b, s.default_size),
                },
            ),
            counter: s.counter + 1,
            default_size: s.default_size,
        }),
{
    let text = a + seq![','] + b + seq![','] + o;
    lemma_operator_named(o);
    lemma_find_operator(operator_table(), o);
    assert(!o.contains(','));
    lemma_split_single(o, ',');
    lemma_split_single(b, ',');
    lemma_split_concat(b, o, ',');
    assert(text =~= a + seq![','] + (b + seq![','] + o));
    lemma_split_single(a, ',');
    lemma_split_concat(a, b + seq![','] + o, ',');
    let tokens = seq![a, b, o];
    assert(split(text, ',') =~= tokens);
    let s1 = s.push(operand(a, s.default_size));
    let s2 = s1.push(operand(b, s.default_size));
    let op = operator_named(o).unwrap();
    assert(tokens.skip(1) =~= seq![b, o]);
    assert(seq![b, o].skip(1) =~= seq![o]);
    assert(seq![o].skip(1) =~= Seq::<Seq<char>>::empty());
    assert(s2.apply(op).run(Seq::empty()).state == s2.apply(op));
    assert(s1.run(seq![b, o]) == s2.run(seq![o]));
    assert(s2.stack.take(s2.stack.len() - 2) =~= s.stack);
}

/// An operator that finds fewer values than it takes emits nothing and
/// makes no temporary; the stack is empty afterwards.
pub proof fn law_underflow(s: EvaluatorState, op: OperatorView)
    requires
        s.stack.len() < taken(op),
    ensures
        s.apply(op).insts == s.insts,
        s.apply(op).counter == s.counter,
        s.apply(op).stack.len() == 0,
{
}

/// What an operator with the assignment of its result comes to, where the
/// operator is no assignment itself and finds the values that it takes: two
/// instructions. The first one is the operator's, with a new temporary as
/// its result. The second one assigns that temporary to the value that was
/// on top of the stack. The null value takes the place of the operands.
pub proof fn law_composite_effect(s: EvaluatorState, op: OperatorView)
    requires
        !op.is_assignment(),
        s.stack.len() >= taken(op),
    ensures
        s.apply_and_assign(op).insts == s.apply(op).insts.push(
            InstructionView {
                opcode: assignment(),
                dest: null_value(),
                operand_1: s.stack.last(),
                operand_2: temporary(s.counter + 1),
            },
        ),
        s.apply(op).insts.len() == s.insts.len() + 1,
        s.apply(op).insts.last().opcode == op,
        s.apply(op).insts.last().dest == temporary(s.counter + 1),
        s.apply_and_assign(op).counter == s.counter + 1,
        s.apply_and_assign(op).stack == s.stack.take(s.stack.len() - taken(op)).push(null_value()),
{
}

/// The assignment operator makes no temporary: it leaves the counter as it
/// is, and where it emits an instruction, that instruction has the null
/// value as its result, which is also what it leaves on top of the stack.
pub proof fn law_assignment_makes_no_temporary(s: EvaluatorState, op: OperatorView)
    requires
        op.is_assignment(),
    ensures
        s.apply(op).counter == s.counter,
        s.apply(op).insts.len() <= s.insts.len() + 1,
        s.apply(op).insts.len() == s.insts.len() + 1 ==> {
            &&& s.apply(op).insts.last().is_assignment()
            &&& s.apply(op).insts.last().dest == null_value()
            &&& s.apply(op).stack.last() == null_value()
        },
{
}

/// An assignment among the instructions of an evaluator has the null value
/// as its result and reads `operand_1 = operand_2`; the counter counts the
/// other instructions only.
pub proof fn law_assignment_form(s: EvaluatorState, k: int)
    requires
        s.numbered(),
        0 <= k < s.insts.len(),
        s.insts[k].is_assignment(),
    ensures
        s.insts[k].dest == null_value(),
        s.insts[k].render() == s.insts[k].operand_1.name + seq![' ', '=', ' ']
            + s.insts[k].operand_2.name,
        s.counter == issued(s.insts),
{
}

/// A translation adds to the instructions that are there: it takes none
/// away and changes none.
pub proof fn law_instructions_accumulate(s: EvaluatorState, text: Seq<char>)
    ensures
        s.insts.is_prefix_of(s.translate(text).insts),
{
    lemma_run(s, split(text, ','));
}

/// Two translations by one evaluator, one after the other, do what one
/// translation of the two texts with a comma between them does, where the
/// first one gets to its end: the second works on the stack, the
/// instructions and the counter that the first has left.
pub proof fn law_translation_in_two_calls(s: EvaluatorState, a: Seq<char>, b: Seq<char>)
    requires
        s.completes(a),
    ensures
        s.translate(a).translate(b) == s.translate(a + seq![','] + b),
        s.translate(a).completes(b) == s.completes(a + seq![','] + b),
{
    lemma_split_concat(a, b, ',');
    lemma_run_concat(s, split(a, ','), split(b, ','));
}

/// An evaluator that has seen nothing yet is numbered.
pub proof fn law_initial_numbered()
    ensures
        EvaluatorState::initial().numbered(),
{
}

/// Translation keeps the numbering of the temporaries: after any number of
/// translations by one evaluator, the instructions that are no assignment
/// have the temporaries 1, 2, 3 and so on as their results, in the order in
/// which they were emitted, and the counter is the number of the last one.
pub proof fn law_numbering_kept(s: EvaluatorState, text: Seq<char>)
    requires
        s.numbered(),
    ensures
        s.translate(text).numbered(),
        s.counter <= s.translate(text).counter,
{
    lemma_run(s, split(text, ','));
}

/// Among more instructions there are not fewer that are no assignment.
pub proof fn lemma_issued_grows(insts: Seq<InstructionView>, i: int, j: int)
    requires
        0 <= i <= j <= insts.len(),
    ensures
        issued(insts.take(i)) <= issued(insts.take(j)),
    decreases j - i,
{
    if i < j {
        lemma_issued_grows(insts, i, j - 1);
        assert(insts.take(j).drop_last() =~= insts.take(j - 1));
    }
}

/// Temporaries with different numbers have different names.
pub proof fn lemma_temporary_names_differ(a: nat, b: nat)
    requires
        a != b,
    ensures
        temporary_name(a) != temporary_name(b),
{
    if temporary_name(a) == temporary_name(b) {
        assert(temporary_name(a).skip(4) =~= crate::numeral::hex(a));
        assert(temporary_name(b).skip(4) =~= crate::numeral::hex(b));
        lemma_hex_injective(a, b);
    }
}

/// The temporaries of one evaluator are unique and go up: of two
/// instructions that are no assignment, the later one has the temporary
/// with the greater number, and the two temporaries have different names.
pub proof fn law_temporaries_increase(s: EvaluatorState, i: int, j: int)
    requires
        s.numbered(),
        0 <= i < j < s.insts.len(),
        !s.insts[i].is_assignment(),
        !s.insts[j].is_assignment(),
    ensures
        s.insts[i].dest == temporary(issued(s.insts.take(i + 1))),
        s.insts[j].dest == temporary(issued(s.insts.take(j + 1))),
        1 <= issued(s.insts.take(i + 1)) < issued(s.insts.take(j + 1)) <= s.counter,
        s.insts[i].dest.name != s.insts[j].dest.name,
{
    let a = issued(s.insts.take(i + 1));
    let b = issued(s.insts.take(j + 1));
    lemma_issued_grows(s.insts, i + 1, j);
    assert(s.insts.take(j + 1).drop_last() =~= s.insts.take(j));
    lemma_issued_grows(s.insts, j + 1, s.insts.len() as int);
    assert(s.insts.take(s.insts.len() as int) =~= s.insts);
    lemma_temporary_names_differ(a, b);
}

/// A composite token makes one temporary for each of its characters at
/// most.
pub proof fn lemma_expand_counter(s: EvaluatorState, token: Seq<char>)
    ensures
        s.expand(split_terminator(token, '=')).state.counter <= s.counter + token.len(),
    decreases token.len(),
{
    lemma_split_terminator_first(token, '=');
    lemma_offset_of(token, '=');
    let parts = split_terminator(token, '=');
    let k = offset_of(token, '=') as int;
    if token.len() > 0 {
        if let Some(op) = operator_named(parts[0]) {
            lemma_operator_named(parts[0]);
            lemma_apply_and_assign(s, op);
            let next = s.apply_and_assign(op);
            if k < token.len() {
                lemma_expand_counter(next, token.skip(k + 1));
            } else {
                assert(next.expand(parts.skip(1)).state == next);
            }
        }
    }
}

/// A token makes one temporary for each of its characters at most.
pub proof fn lemma_step_counter(s: EvaluatorState, token: Seq<char>)
    ensures
        s.step(token).state.counter <= s.counter + token.len(),
{
    match operator_named(token) {
        Some(op) => {
            lemma_operator_named(token);
            lemma_apply(s, op);
        },
        None => {
            if token.contains('=') {
                lemma_expand_counter(s, token);
            }
        },
    }
}

/// A translation makes one temporary for each character of the text at
/// most: the counter goes up by no more than the length of the text.
pub proof fn law_counter_bound(s: EvaluatorState, text: Seq<char>)
    ensures
        s.counter <= s.translate(text).counter <= s.counter + text.len(),
    decreases text.len(),
{
    lemma_run(s, split(text, ','));
    lemma_split_first(text, ',');
    lemma_offset_of(text, ',');
    let tokens = split(text, ',');
    let k = offset_of(text, ',') as int;
    lemma_step_counter(s, tokens[0]);
    let first = s.step(tokens[0]);
    if first.completed {
        if k < text.len() {
            law_counter_bound(first.state, text.skip(k + 1));
        } else {
            assert(first.state.run(tokens.skip(1)).state == first.state);
        }
    }
}

/// With operands and binary operators only, the evaluator never gives up;
/// it emits one instruction for each operator that finds its two operands;
/// and each token moves the height of the stack by one: an operand up, an
/// operator down, but for the operator that finds no value at all.
pub proof fn lemma_plain_run(s: EvaluatorState, tokens: Seq<Seq<char>>, k: int)
    requires
        plain(tokens),
        0 <= k <= tokens.len(),
    ensures
        s.run(tokens.take(k)).completed,
        s.run(tokens.take(k)).state.insts.len() == s.insts.len() + applied_among(s, tokens, k),
        height_at(s, tokens, k) + applied_among(s, tokens, k) + lost_among(s, tokens, k)
            == s.stack.len() + operands_among(tokens, k),
    decreases k,
{
    if k > 0 {
        lemma_plain_run(s, tokens, k - 1);
        let token = tokens[k - 1];
        let before = s.run(tokens.take(k - 1)).state;
        assert(tokens.take(k) =~= tokens.take(k - 1) + seq![token]);
        lemma_run_concat(s, tokens.take(k - 1), seq![token]);
        assert(before.step(token).state.run(seq![token].skip(1)) == before.step(token));
    }
}

/// Where no operator finds two values after one has found fewer, the
/// operators that find two are those before the first that does not.
pub proof fn lemma_applied_before_underflow(s: EvaluatorState, tokens: Seq<Seq<char>>, k: int)
    requires
        0 <= k <= tokens.len(),
        forall|i: int, j: int|
            0 <= i < j < tokens.len() && underflows_at(s, tokens, i) && is_binary_token(tokens[j])
                ==> underflows_at(s, tokens, j),
    ensures
        applied_among(s, tokens, k) == operators_before_underflow(s, tokens, k),
    decreases k,
{
    if k > 0 {
        lemma_applied_before_underflow(s, tokens, k - 1);
    }
}

/// With operands and binary operators only, the number of instructions
/// emitted is the number of operators that stand before the first one that
/// finds too few values, provided that no operator after that one finds
/// two.
pub proof fn law_instructions_before_underflow(s: EvaluatorState, tokens: Seq<Seq<char>>)
    requires
        plain(tokens),
        forall|i: int, j: int|
            0 <= i < j < tokens.len() && underflows_at(s, tokens, i) && is_binary_token(tokens[j])
                ==> underflows_at(s, tokens, j),
    ensures
        s.run(tokens).completed,
        s.run(tokens).state.insts.len() == s.insts.len() + operators_before_underflow(
            s,
            tokens,
            tokens.len() as int,
        ),
{
    let n = tokens.len() as int;
    lemma_plain_run(s, tokens, n);
    assert(tokens.take(n) =~= tokens);
    lemma_applied_before_underflow(s, tokens, n);
}

/// Where no operator finds exactly one value, none is lost.
pub proof fn lemma_nothing_lost(s: EvaluatorState, tokens: Seq<Seq<char>>, k: int)
    requires
        0 <= k <= tokens.len(),
        forall|i: int|
            0 <= i < tokens.len() && is_binary_token(tokens[i]) ==> height_at(s, tokens, i) != 1,
    ensures
        lost_among(s, tokens, k) == 0,
    decreases k,
{
    if k > 0 {
        lemma_nothing_lost(s, tokens, k - 1);
    }
}

/// With operands and binary operators only, the height of the stack at the
/// end is its height at the start, plus the number of operands, minus the
/// number of operators that found their two operands, provided that no
/// operator finds exactly one value.
pub proof fn law_stack_height(s: EvaluatorState, tokens: Seq<Seq<char>>)
    requires
        plain(tokens),
        forall|i: int|
            0 <= i < tokens.len() && is_binary_token(tokens[i]) ==> height_at(s, tokens, i) != 1,
    ensures
        s.run(tokens).state.stack.len() == s.stack.len() + operands_among(
            tokens,
            tokens.len() as int,
        ) - applied_among(s, tokens, tokens.len() as int),
        s.run(tokens).state.insts.len() == s.insts.len() + applied_among(
            s,
            tokens,
            tokens.len() as int,
        ),
{
    let n = tokens.len() as int;
    lemma_plain_run(s, tokens, n);
    assert(tokens.take(n) =~= tokens);
    lemma_nothing_lost(s, tokens, n);
}

} // verus!
