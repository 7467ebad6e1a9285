//! The fixed table of the registers that the language knows, each with its
//! width in bits.

use crate::text::spells;
use vstd::prelude::*;

verus! {

/// The entries of a table of registers, as the contracts see them: a name
/// and a width in bits.
pub open spec fn registers_view(table: Seq<(&str, u8)>) -> Seq<(Seq<char>, u8)> {
    table.map_values(|entry: (&str, u8)| (entry.0@, entry.1))
}

/// The registers of the language: nine registers of 64 bits.
pub open spec fn register_table() -> Seq<(Seq<char>, u8)> {
    seq![
        (seq!['r', 'a', 'x'], 64u8),
        (seq!['r', 'b', 'x'], 64u8),
        (seq!['r', 'c', 'x'], 64u8),
        (seq!['r', 'd', 'x'], 64u8),
        (seq!['r', 's', 'p'], 64u8),
        (seq!['r', 'b', 'p'], 64u8),
        (seq!['r', 's', 'i'], 64u8),
        (seq!['r', 'd', 'i'], 64u8),
        (seq!['r', 'i', 'p'], 64u8),
    ]
}

/// The width of the first register of `table` whose name is `token`, letter
/// for letter.
pub open spec fn find_register(table: Seq<(Seq<char>, u8)>, token: Seq<char>) -> Option<u8>
    decreases table.len(),
{
    if table.len() == 0 {
        None
    } else if table[0].0 == token {
        Some(table[0].1)
    } else {
        find_register(table.skip(1), token)
    }
}

/// The width of the register of the language that `token` names, if it
/// names one.
pub open spec fn register_named(token: Seq<char>) -> Option<u8> {
    find_register(register_table(), token)
}

/// The table of the registers of the language.
pub fn init_regset() -> (table: Vec<(&'static str, u8)>)
    ensures
        registers_view(table@) == register_table(),
{
    proof {
        reveal_strlit("rax");
        reveal_strlit("rbx");
        reveal_strlit("rcx");
        reveal_strlit("rdx");
        reveal_strlit("rsp");
        reveal_strlit("rbp");
        reveal_strlit("rsi");
        reveal_strlit("rdi");
        reveal_strlit("rip");
    }
    let mut table: Vec<(&'static str, u8)> = Vec::new();
    table.push(("rax", 64));
    table.push(("rbx", 64));
    table.push(("rcx", 64));
    table.push(("rdx", 64));
    table.push(("rsp", 64));
    table.push(("rbp", 64));
    table.push(("rsi", 64));
    table.push(("rdi", 64));
    table.push(("rip", 64));
    proof {
        let got = registers_view(table@);
        let want = register_table();
        assert forall|i: int| 0 <= i < got.len() implies got[i] == want[i] by {
            assert(got[i].0 =~= want[i].0);
        }
    }
    table
}

/// Looks `token` up in `table`: the width of the first register with
/// exactly that name.
pub fn lookup_register(table: &Vec<(&str, u8)>, token: &[char]) -> (r: Option<u8>)
    ensures
        r == find_register(registers_view(table@), token@),
{
    let ghost all = registers_view(table@);
    assert(all.skip(0) =~= all);
    let mut i: usize = 0;
    while i < table.len()
        invariant
            i <= table@.len(),
            all == registers_view(table@),
            find_register(all, token@) == find_register(all.skip(i as int), token@),
        decreases table@.len() - i,
    {
        let entry = table[i];
        if spells(entry.0, token) {
            return Some(entry.1);
        }
        assert(all.skip(i as int).skip(1) =~= all.skip(i + 1));
        i = i + 1;
    }
    None
}

} // verus!
