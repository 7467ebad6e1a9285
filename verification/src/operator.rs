//! Operators: a symbol with an arity, and the fixed table of the operators
//! that the language knows.

use crate::text::spells;
use vstd::prelude::*;
use vstd::string::*;

verus! {

/// How many operands an operator stands for.
#[derive(Debug, Clone, Copy, PartialEq, Eq, Structural)]
pub enum Arity {
    Zero,
    Unary,
    Binary,
    Ternary,
}

impl Arity {
    /// The number of operands that the arity stands for, as a number of
    /// the contracts.
    pub open spec fn count(self) -> nat {
        match self {
            Arity::Zero => 0,
            Arity::Unary => 1,
            Arity::Binary => 2,
            Arity::Ternary => 3,
        }
    }

    /// The number of operands that the arity stands for.
    pub fn n(self) -> (r: u8)
        ensures
            r == self.count(),
    {
        match self {
            Arity::Zero => 0,
            Arity::Unary => 1,
            Arity::Binary => 2,
            Arity::Ternary => 3,
        }
    }
}

/// An operator as the contracts see it.
pub struct OperatorView {
    pub symbol: Seq<char>,
    pub arity: Arity,
}

impl OperatorView {
    /// The assignment operator is known by its symbol, `=`.
    pub open spec fn is_assignment(self) -> bool {
        self.symbol == seq!['=']
    }
}

/// The operator that stores its second operand in its first one.
pub open spec fn assignment() -> OperatorView {
    OperatorView { symbol: seq!['='], arity: Arity::Binary }
}

/// A symbol and the number of operands that it works on.
#[derive(Debug, Clone, Copy)]
pub struct Operator<'a> {
    op: &'a str,
    arity: Arity,
}

impl<'a> View for Operator<'a> {
    type V = OperatorView;

    closed spec fn view(&self) -> OperatorView {
        OperatorView { symbol: self.op@, arity: self.arity }
    }
}

impl<'a> Operator<'a> {
    /// The operator with the symbol `op` and the arity `n`.
    pub fn new(op: &'a str, n: Arity) -> (r: Operator<'a>)
        ensures
            r@ == (OperatorView { symbol: op@, arity: n }),
    {
        Operator { op: op, arity: n }
    }

    /// The operator that stands for "no operator": no table holds it.
    pub fn nop() -> (r: Operator<'a>)
        ensures
            r@ == (OperatorView { symbol: seq!['n', 'o', 'p'], arity: Arity::Zero }),
    {
        proof {
            reveal_strlit("nop");
        }
        let r = Operator { op: "nop", arity: Arity::Zero };
        assert(r@.symbol =~= seq!['n', 'o', 'p']);
        r
    }

    /// The symbol of the operator.
    pub fn symbol(&self) -> (s: &'a str)
        ensures
            s@ == self@.symbol,
    {
        self.op
    }

    /// The arity of the operator.
    pub fn arity(&self) -> (n: Arity)
        ensures
            n == self@.arity,
    {
        self.arity
    }

    /// Whether this is the assignment operator.
    pub fn is_assignment(&self) -> (r: bool)
        ensures
            r == self@.is_assignment(),
    {
        let r = self.op.unicode_len() == 1 && self.op.get_char(0) == '=';
        assert(r == (self.op@ =~= seq!['=']));
        r
    }
}

/// The operators of a table of operators, as the contracts see them.
pub open spec fn operators_view(table: Seq<Operator>) -> Seq<OperatorView> {
    table.map_values(|op: Operator| op@)
}

/// The operators of the language: sixteen binary ones, four unary ones, and
/// the token that closes a block, which takes no operand of its own.
pub open spec fn operator_table() -> Seq<OperatorView> {
    seq![
        OperatorView { symbol: seq!['=', '='], arity: Arity::Binary },
        OperatorView { symbol: seq!['<'], arity: Arity::Binary },
        OperatorView { symbol: seq!['>'], arity: Arity::Binary },
        OperatorView { symbol: seq!['<', '='], arity: Arity::Binary },
        OperatorView { symbol: seq!['>', '='], arity: Arity::Binary },
        OperatorView { symbol: seq!['<', '<'], arity: Arity::Binary },
        OperatorView { symbol: seq!['>', '>'], arity: Arity::Binary },
        OperatorView { symbol: seq!['&'], arity: Arity::Binary },
        OperatorView { symbol: seq!['|'], arity: Arity::Binary },
        OperatorView { symbol: seq!['='], arity: Arity::Binary },
        OperatorView { symbol: seq!['*'], arity: Arity::Binary },
        OperatorView { symbol: seq!['^'], arity: Arity::Binary },
        OperatorView { symbol: seq!['+'], arity: Arity::Binary },
        OperatorView { symbol: seq!['-'], arity: Arity::Binary },
        OperatorView { symbol: seq!['/'], arity: Arity::Binary },
        OperatorView { symbol: seq!['%'], arity: Arity::Binary },
        OperatorView { symbol: seq!['?', '{'], arity: Arity::Unary },
        OperatorView { symbol: seq!['!'], arity: Arity::Unary },
        OperatorView { symbol: seq!['-', '-'], arity: Arity::Unary },
        OperatorView { symbol: seq!['+', '+'], arity: Arity::Unary },
        OperatorView { symbol: seq!['}'], arity: Arity::Zero },
    ]
}

/// The first operator of `table` whose symbol is `token`, letter for letter.
pub open spec fn find_operator(table: Seq<OperatorView>, token: Seq<char>) -> Option<OperatorView>
    decreases table.len(),
{
    if table.len() == 0 {
        None
    } else if table[0].symbol == token {
        Some(table[0])
    } else {
        find_operator(table.skip(1), token)
    }
}

/// The operator of the language that `token` names, if it names one.
pub open spec fn operator_named(token: Seq<char>) -> Option<OperatorView> {
    find_operator(operator_table(), token)
}

/// An operator that was found has the symbol that was looked for, and
/// stands in the table.
pub proof fn lemma_find_operator(table: Seq<OperatorView>, token: Seq<char>)
    ensures
        find_operator(table, token) matches Some(op) ==> op.symbol == token && table.contains(op),
        find_operator(table, token) is None ==> forall|i: int|
            0 <= i < table.len() ==> (#[trigger] table[i]).symbol != token,
    decreases table.len(),
{
    if table.len() > 0 && table[0].symbol != token {
        let rest = table.skip(1);
        lemma_find_operator(rest, token);
        match find_operator(rest, token) {
            Some(op) => {
                let i = choose|i: int| 0 <= i < rest.len() && rest[i] == op;
                assert(table[i + 1] == op);
            },
            None => {
                assert forall|i: int| 0 <= i < table.len() implies (#[trigger] table[i]).symbol
                    != token by {
                    if i > 0 {
                        assert(table[i] == rest[i - 1]);
                    }
                }
            },
        }
    }
}

/// An operator of the language has the symbol by which it was found, and
/// that symbol is not empty.
pub proof fn lemma_operator_named(token: Seq<char>)
    ensures
        operator_named(token) matches Some(op) ==> op.symbol == token && token.len() >= 1,
{
    lemma_find_operator(operator_table(), token);
}

/// The table of the operators of the language.
pub fn init_opset() -> (table: Vec<Operator<'static>>)
    ensures
        operators_view(table@) == operator_table(),
{
    proof {
        reveal_strlit("==");
        reveal_strlit("<");
        reveal_strlit(">");
        reveal_strlit("<=");
        reveal_strlit(">=");
        reveal_strlit("<<");
        reveal_strlit(">>");
        reveal_strlit("&");
        reveal_strlit("|");
        reveal_strlit("=");
        reveal_strlit("*");
        reveal_strlit("^");
        reveal_strlit("+");
        reveal_strlit("-");
        reveal_strlit("/");
        reveal_strlit("%");
        reveal_strlit("?{");
        reveal_strlit("!");
        reveal_strlit("--");
        reveal_strlit("++");
        reveal_strlit("}");
    }
    let mut table: Vec<Operator<'static>> = Vec::new();
    table.push(Operator::new("==", Arity::Binary));
    table.push(Operator::new("<", Arity::Binary));
    table.push(Operator::new(">", Arity::Binary));
    table.push(Operator::new("<=", Arity::Binary));
    table.push(Operator::new(">=", Arity::Binary));
    table.push(Operator::new("<<", Arity::Binary));
    table.push(Operator::new(">>", Arity::Binary));
    table.push(Operator::new("&", Arity::Binary));
    table.push(Operator::new("|", Arity::Binary));
    table.push(Operator::new("=", Arity::Binary));
    table.push(Operator::new("*", Arity::Binary));
    table.push(Operator::new("^", Arity::Binary));
    table.push(Operator::new("+", Arity::Binary));
    table.push(Operator::new("-", Arity::Binary));
    table.push(Operator::new("/", Arity::Binary));
    table.push(Operator::new("%", Arity::Binary));
    table.push(Operator::new("?{", Arity::Unary));
    table.push(Operator::new("!", Arity::Unary));
    table.push(Operator::new("--", Arity::Unary));
    table.push(Operator::new("++", Arity::Unary));
    table.push(Operator::new("}", Arity::Zero));
    proof {
        let got = operators_view(table@);
        let want = operator_table();
        assert forall|i: int| 0 <= i < got.len() implies got[i] == want[i] by {
            assert(got[i].symbol =~= want[i].symbol);
        }
    }
    table
}

/// Looks `token` up in `table`: the first operator with exactly that symbol.
pub fn lookup_operator<'a>(table: &Vec<Operator<'a>>, token: &[char]) -> (r: Option<Operator<'a>>)
    ensures
        r is Some == find_operator(operators_view(table@), token@) is Some,
        r matches Some(op) ==> find_operator(operators_view(table@), token@) == Some(op@),
{
    let ghost all = operators_view(table@);
    assert(all.skip(0) =~= all);
    let mut i: usize = 0;
    while i < table.len()
        invariant
            i <= table@.len(),
            all == operators_view(table@),
            find_operator(all, token@) == find_operator(all.skip(i as int), token@),
        decreases table@.len() - i,
    {
        let op = table[i];
        if spells(op.op, token) {
            return Some(op);
        }
        assert(all.skip(i as int).skip(1) =~= all.skip(i + 1));
        i = i + 1;
    }
    None
}

} // verus!
