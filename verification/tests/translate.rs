use esil::{Instruction, Location, Parser, Value};

fn rendered(p: &Parser) -> Vec<String> {
    p.emit_insts().iter().map(|i| i.to_string()).collect()
}

fn names(values: &[Value]) -> Vec<String> {
    values.iter().map(|v| v.name().to_string()).collect()
}

fn translated(text: &'static str) -> Parser<'static> {
    let mut p = Parser::new();
    p.parse(text);
    p
}

#[test]
fn testing() {
    let mut p = Parser::new();
    p.parse("0,0x204db1,rip,+,[1],==,%z,zf,=,%b8,cf,=,%p,pf,=,%s,sf,=");
}

#[test]
fn flag_updates_render_in_order() {
    let p = translated("0,0x204db1,rip,+,[1],==,%z,zf,=,%b8,cf,=,%p,pf,=,%s,sf,=");
    assert_eq!(
        rendered(&p),
        vec![
            "tmp_1 = 0x204db1 + rip",
            "tmp_2 = tmp_1 == [1]",
            "zf = %z",
            "cf = %b8",
            "pf = %p",
            "sf = %s",
        ]
    );
    assert_eq!(names(&p.stack()), vec!["0", "tmp_2", "", "", "", ""]);
    assert_eq!(p.tmp_index(), 2);
}

#[test]
fn new_parser_is_empty() {
    let p = Parser::new();
    assert!(p.emit_insts().is_empty());
    assert!(p.stack().is_empty());
    assert_eq!(p.tmp_index(), 0);
}

#[test]
fn binary_operands_keep_their_order() {
    let p = translated("a,b,+");
    let insts = p.emit_insts();
    assert_eq!(insts.len(), 1);
    assert_eq!(insts[0].operand_1().name(), "a");
    assert_eq!(insts[0].operand_2().name(), "b");
    assert_eq!(insts[0].opcode().symbol(), "+");
    assert_eq!(insts[0].dest().name(), "tmp_1");
    assert_eq!(insts[0].dest().location(), Location::Temporary);
    assert_eq!(rendered(&p), vec!["tmp_1 = a + b"]);
    assert_eq!(names(&p.stack()), vec!["tmp_1"]);
}

#[test]
fn subtraction_and_division_keep_the_order_of_the_text() {
    assert_eq!(rendered(&translated("10,3,-")), vec!["tmp_1 = 10 - 3"]);
    assert_eq!(rendered(&translated("10,3,/")), vec!["tmp_1 = 10 / 3"]);
    assert_eq!(rendered(&translated("x,1,<<")), vec!["tmp_1 = x << 1"]);
    assert_eq!(rendered(&translated("x,y,<=")), vec!["tmp_1 = x <= y"]);
}

#[test]
fn every_binary_operator_takes_two_and_leaves_one() {
    for symbol in ["==", "<", ">", "<=", ">=", "<<", ">>", "&", "|", "*", "^", "+", "-", "/", "%"] {
        let mut p = Parser::new();
        p.parse("k,a,b");
        let text: &'static str = Box::leak(symbol.to_string().into_boxed_str());
        p.parse(text);
        assert_eq!(rendered(&p), vec![format!("tmp_1 = a {} b", symbol)]);
        assert_eq!(names(&p.stack()), vec!["k", "tmp_1"]);
        assert_eq!(p.tmp_index(), 1);
    }
}

#[test]
fn assignment_stores_in_the_top_value() {
    let p = translated("a,b,=");
    let insts = p.emit_insts();
    assert_eq!(insts.len(), 1);
    assert_eq!(insts[0].opcode().symbol(), "=");
    assert_eq!(insts[0].operand_1().name(), "b");
    assert_eq!(insts[0].operand_2().name(), "a");
    assert_eq!(insts[0].dest().location(), Location::Null);
    assert_eq!(insts[0].dest().name(), "");
    assert_eq!(insts[0].to_string(), "b = a");
    let stack = p.stack();
    assert_eq!(stack.len(), 1);
    assert_eq!(stack[0].location(), Location::Null);
}

#[test]
fn assignment_never_makes_a_temporary() {
    let p = translated("a,b,=,c,d,=,e,f,=");
    assert_eq!(p.tmp_index(), 0);
    assert_eq!(rendered(&p), vec!["b = a", "d = c", "f = e"]);
    for inst in p.emit_insts() {
        assert_eq!(inst.dest().location(), Location::Null);
        assert_eq!(
            inst.to_string(),
            format!("{} = {}", inst.operand_1().name(), inst.operand_2().name())
        );
    }
}

#[test]
fn composite_emits_operation_and_assignment() {
    let p = translated("a,b,+=");
    let insts = p.emit_insts();
    assert_eq!(insts.len(), 2);
    assert_eq!(insts[0].opcode().symbol(), "+");
    assert_eq!(insts[0].dest().location(), Location::Temporary);
    assert_eq!(insts[0].dest().name(), "tmp_1");
    assert_eq!(insts[0].operand_1().name(), "a");
    assert_eq!(insts[0].operand_2().name(), "b");
    assert_eq!(insts[1].opcode().symbol(), "=");
    assert_eq!(insts[1].dest().location(), Location::Null);
    assert_eq!(insts[1].operand_2().name(), "tmp_1");
    assert_eq!(insts[1].operand_2().location(), Location::Temporary);
    assert_eq!(insts[1].operand_1().name(), "b");
    assert_eq!(rendered(&p), vec!["tmp_1 = a + b", "b = tmp_1"]);
    assert_eq!(p.tmp_index(), 1);
    let stack = p.stack();
    assert_eq!(stack.len(), 1);
    assert_eq!(stack[0].location(), Location::Null);
}

#[test]
fn composite_with_a_unary_operator() {
    let p = translated("k,a,++=");
    assert_eq!(rendered(&p), vec!["tmp_1 = a ++ ", "a = tmp_1"]);
    assert_eq!(names(&p.stack()), vec!["k", ""]);
}

#[test]
fn composite_shift() {
    let p = translated("1,rax,>>=");
    assert_eq!(rendered(&p), vec!["tmp_1 = 1 >> rax", "rax = tmp_1"]);
    let insts = p.emit_insts();
    assert_eq!(insts[1].operand_1().location(), Location::Register);
    assert_eq!(insts[1].operand_1().size(), 64);
}

#[test]
fn composite_with_two_parts() {
    let p = translated("a,b,+=-=");
    assert_eq!(rendered(&p), vec!["tmp_1 = a + b", "b = tmp_1"]);
    assert!(p.stack().is_empty());
    assert_eq!(p.tmp_index(), 1);

    let q = translated("x,y,a,b,+=^=");
    assert_eq!(
        rendered(&q),
        vec!["tmp_1 = a + b", "b = tmp_1", "tmp_2 = y ^ ", " = tmp_2"]
    );
    assert_eq!(names(&q.stack()), vec!["x", ""]);
}

#[test]
fn composite_with_an_unknown_part_stops_the_translation() {
    let p = translated("a,b,x=,c,d,+");
    assert!(p.emit_insts().is_empty());
    assert_eq!(names(&p.stack()), vec!["a", "b"]);

    let q = translated("a,b,+==,c");
    assert_eq!(rendered(&q), vec!["tmp_1 = a + b", "b = tmp_1"]);
    assert_eq!(q.stack().len(), 1);
    assert_eq!(q.stack()[0].location(), Location::Null);

    let r = translated("a,b,=+,c");
    assert!(r.emit_insts().is_empty());
    assert_eq!(names(&r.stack()), vec!["a", "b"]);
}

#[test]
fn translation_goes_on_after_a_stopped_one() {
    let mut p = Parser::new();
    p.parse("a,b,x=,c");
    p.parse("+");
    assert_eq!(rendered(&p), vec!["tmp_1 = a + b"]);
}

#[test]
fn composite_on_an_empty_stack_does_nothing() {
    let p = translated("+=,a");
    assert!(p.emit_insts().is_empty());
    assert_eq!(names(&p.stack()), vec!["a"]);
    assert_eq!(p.tmp_index(), 0);
}

#[test]
fn composite_with_one_value_loses_it() {
    let p = translated("a,+=");
    assert!(p.emit_insts().is_empty());
    assert!(p.stack().is_empty());
    assert_eq!(p.tmp_index(), 0);
}

#[test]
fn repeated_calls_accumulate() {
    let mut p = Parser::new();
    p.parse("a,b");
    assert!(p.emit_insts().is_empty());
    assert_eq!(names(&p.stack()), vec!["a", "b"]);
    p.parse("+");
    assert_eq!(rendered(&p), vec!["tmp_1 = a + b"]);
    assert_eq!(names(&p.stack()), vec!["tmp_1"]);
    p.parse("c,-");
    assert_eq!(rendered(&p), vec!["tmp_1 = a + b", "tmp_2 = tmp_1 - c"]);
    assert_eq!(names(&p.stack()), vec!["tmp_2"]);

    let q = translated("a,b,+,c,-");
    assert_eq!(rendered(&q), rendered(&p));
    assert_eq!(names(&q.stack()), names(&p.stack()));
    assert_eq!(q.tmp_index(), p.tmp_index());
}

#[test]
fn temporaries_are_unique_and_go_up() {
    let mut p = Parser::new();
    for _ in 0..6 {
        p.parse("a,b,+,c,*,d,-");
    }
    let insts = p.emit_insts();
    assert_eq!(insts.len(), 18);
    let temporaries: Vec<String> = insts.iter().map(|i| i.dest().name().to_string()).collect();
    let expected: Vec<String> = (1..=18u64).map(|i| format!("tmp_{:x}", i)).collect();
    assert_eq!(temporaries, expected);
    assert_eq!(temporaries[9], "tmp_a");
    assert_eq!(temporaries[15], "tmp_10");
    assert_eq!(temporaries[17], "tmp_12");
    for i in 0..temporaries.len() {
        for j in 0..i {
            assert_ne!(temporaries[i], temporaries[j]);
        }
    }
    assert_eq!(p.tmp_index(), 18);
}

#[test]
fn temporaries_skip_assignments() {
    let p = translated("a,b,+,c,=,d,e,*,f,=");
    assert_eq!(
        rendered(&p),
        vec!["tmp_1 = a + b", "c = tmp_1", "tmp_2 = d * e", "f = tmp_2"]
    );
    assert_eq!(p.tmp_index(), 2);
}

#[test]
fn xor_then_assignment_end_to_end() {
    let p = translated("eax,ebx,^,=");
    let insts = p.emit_insts();
    assert_eq!(insts[0].to_string(), "tmp_1 = eax ^ ebx");
    assert_eq!(insts[0].operand_1().location(), Location::Unknown);
    assert_eq!(insts[0].operand_2().location(), Location::Unknown);
    assert_eq!(insts[0].operand_1().size(), 64);
    assert_eq!(insts[0].operand_2().size(), 64);
    assert_eq!(insts[0].dest().location(), Location::Temporary);
    // The assignment finds the temporary alone on the stack: it takes it
    // and emits nothing.
    assert_eq!(insts.len(), 1);
    assert!(p.stack().is_empty());
}

#[test]
fn xor_assigned_to_a_named_target() {
    let p = translated("eax,ebx,^,eax,=");
    assert_eq!(rendered(&p), vec!["tmp_1 = eax ^ ebx", "eax = tmp_1"]);
    let q = translated("eax,ebx,^=");
    assert_eq!(rendered(&q), vec!["tmp_1 = eax ^ ebx", "ebx = tmp_1"]);
}

#[test]
fn operator_on_an_empty_stack_emits_nothing() {
    let p = translated("+");
    assert!(p.emit_insts().is_empty());
    assert!(p.stack().is_empty());
    assert_eq!(p.tmp_index(), 0);
    for text in ["=", "!", "}", "==", "?{", "--"] {
        let q = translated(text);
        assert!(q.emit_insts().is_empty());
        assert!(q.stack().is_empty());
        assert_eq!(q.tmp_index(), 0);
    }
}

#[test]
fn binary_operator_with_one_value_takes_it_and_emits_nothing() {
    let p = translated("a,+");
    assert!(p.emit_insts().is_empty());
    assert!(p.stack().is_empty());
    assert_eq!(p.tmp_index(), 0);
    let q = translated("a,=");
    assert!(q.emit_insts().is_empty());
    assert!(q.stack().is_empty());
}

#[test]
fn translation_goes_on_after_an_underflow() {
    let p = translated("+,a,b,+");
    assert_eq!(rendered(&p), vec!["tmp_1 = a + b"]);
    assert_eq!(names(&p.stack()), vec!["tmp_1"]);
}

#[test]
fn counts_without_composites() {
    // Four operands, three operators, each of which finds two values.
    let p = translated("1,2,+,3,4,*,-");
    assert_eq!(p.emit_insts().len(), 3);
    assert_eq!(p.stack().len(), 4 - 3);
    assert_eq!(
        rendered(&p),
        vec!["tmp_1 = 1 + 2", "tmp_2 = 3 * 4", "tmp_3 = tmp_1 - tmp_2"]
    );
    // No operator stands before the first one that finds too few values.
    let q = translated("+,a,b");
    assert_eq!(q.emit_insts().len(), 0);
    assert_eq!(q.stack().len(), 2 - 0);
    let r = translated("+,*,a,b,c");
    assert_eq!(r.emit_insts().len(), 0);
    assert_eq!(r.stack().len(), 3 - 0);
}

#[test]
fn counts_where_a_value_is_lost() {
    // The second operator finds one value only and takes it.
    let p = translated("1,2,+,+");
    assert_eq!(p.emit_insts().len(), 1);
    assert_eq!(p.stack().len(), 0);
    let q = translated("a,b,c,+,=,-,d");
    assert_eq!(rendered(&q), vec!["tmp_1 = b + c", "tmp_1 = a"]);
    assert_eq!(names(&q.stack()), vec!["d"]);
}

#[test]
fn unary_operator_takes_one_value() {
    let p = translated("k,a,!");
    let insts = p.emit_insts();
    assert_eq!(insts.len(), 1);
    assert_eq!(insts[0].operand_1().name(), "a");
    assert_eq!(insts[0].operand_2().location(), Location::Null);
    assert_eq!(insts[0].dest().name(), "tmp_1");
    assert_eq!(insts[0].to_string(), "tmp_1 = a ! ");
    assert_eq!(names(&p.stack()), vec!["k", "tmp_1"]);
    assert_eq!(rendered(&translated("a,?{")), vec!["tmp_1 = a ?{ "]);
    assert_eq!(rendered(&translated("a,--")), vec!["tmp_1 = a -- "]);
    assert_eq!(rendered(&translated("a,++")), vec!["tmp_1 = a ++ "]);
}

#[test]
fn block_end_takes_one_value() {
    let p = translated("k,a,}");
    let insts = p.emit_insts();
    assert_eq!(insts.len(), 1);
    assert_eq!(insts[0].opcode().symbol(), "}");
    assert_eq!(insts[0].operand_1().name(), "a");
    assert_eq!(insts[0].operand_2().location(), Location::Null);
    assert_eq!(insts[0].dest().location(), Location::Temporary);
    assert_eq!(names(&p.stack()), vec!["k", "tmp_1"]);
}

#[test]
fn operands_are_classified() {
    let p = translated("rax,eax,42,-7,+5,0x10,nop,RAX, 1,1 ,,[1]");
    let stack = p.stack();
    let expected: Vec<(&str, Location, u8, i64)> = vec![
        ("rax", Location::Register, 64, 0),
        ("eax", Location::Unknown, 64, 0),
        ("42", Location::Constant, 64, 42),
        ("-7", Location::Constant, 64, -7),
        ("+5", Location::Constant, 64, 5),
        ("0x10", Location::Unknown, 64, 0),
        ("nop", Location::Unknown, 64, 0),
        ("RAX", Location::Unknown, 64, 0),
        (" 1", Location::Unknown, 64, 0),
        ("1 ", Location::Unknown, 64, 0),
        ("", Location::Unknown, 64, 0),
        ("[1]", Location::Unknown, 64, 0),
    ];
    assert_eq!(stack.len(), expected.len());
    for (value, (name, location, size, literal)) in stack.iter().zip(expected) {
        assert_eq!(value.name(), name);
        assert_eq!(value.location(), location);
        assert_eq!(value.size(), size);
        assert_eq!(value.value(), literal);
        assert_eq!(value.typeset(), 0);
    }
    assert!(p.emit_insts().is_empty());
}

#[test]
fn every_register_is_known() {
    let p = translated("rax,rbx,rcx,rdx,rsp,rbp,rsi,rdi,rip");
    let stack = p.stack();
    assert_eq!(stack.len(), 9);
    for value in stack {
        assert_eq!(value.location(), Location::Register);
        assert_eq!(value.size(), 64);
        assert_eq!(value.value(), 0);
    }
}

#[test]
fn constants_at_the_limits() {
    let p = translated(
        "9223372036854775807,9223372036854775808,-9223372036854775808,-9223372036854775809,\
         000,-0,+0,00000000000000000000000000012,99999999999999999999999",
    );
    let stack = p.stack();
    let expected: Vec<(Location, i64)> = vec![
        (Location::Constant, i64::MAX),
        (Location::Unknown, 0),
        (Location::Constant, i64::MIN),
        (Location::Unknown, 0),
        (Location::Constant, 0),
        (Location::Constant, 0),
        (Location::Constant, 0),
        (Location::Constant, 12),
        (Location::Unknown, 0),
    ];
    assert_eq!(stack.len(), expected.len());
    for (value, (location, literal)) in stack.iter().zip(expected) {
        assert_eq!(value.location(), location, "{}", value.name());
        assert_eq!(value.value(), literal, "{}", value.name());
    }
}

#[test]
fn constants_are_what_the_standard_library_reads() {
    let words = [
        "0", "7", "-7", "+7", "++7", "+-7", "-+7", "1-", "1+", "12a", "a12", "1.5", "1e3",
        "0b1", "0o7", "١٢٣", "１２", "1_000", "١", "-", "−1", "9223372036854775806",
        "-9223372036854775807", "18446744073709551615", "18446744073709551616",
        "00009223372036854775807", "-00009223372036854775808", "92233720368547758070",
        "9223372036854775817", "-9223372036854775818", "é", "4é", "é4",
    ];
    for word in words {
        let mut p = Parser::new();
        let text: &'static str = Box::leak(word.to_string().into_boxed_str());
        p.parse(text);
        let stack = p.stack();
        if word == "-" {
            assert!(stack.is_empty());
            continue;
        }
        assert_eq!(stack.len(), 1, "{}", word);
        assert_eq!(stack[0].name(), word);
        match word.parse::<i64>() {
            Ok(n) => {
                assert_eq!(stack[0].location(), Location::Constant, "{}", word);
                assert_eq!(stack[0].value(), n, "{}", word);
            }
            Err(_) => {
                assert_eq!(stack[0].location(), Location::Unknown, "{}", word);
                assert_eq!(stack[0].value(), 0, "{}", word);
            }
        }
    }
}

#[test]
fn empty_text_is_one_empty_operand() {
    let p = translated("");
    assert!(p.emit_insts().is_empty());
    let stack = p.stack();
    assert_eq!(stack.len(), 1);
    assert_eq!(stack[0].name(), "");
    assert_eq!(stack[0].location(), Location::Unknown);
    assert_eq!(stack[0].size(), 64);
}

#[test]
fn commas_alone_are_empty_operands() {
    let p = translated(",,");
    assert_eq!(names(&p.stack()), vec!["", "", ""]);
    let q = translated("a,");
    assert_eq!(names(&q.stack()), vec!["a", ""]);
    let r = translated(",a");
    assert_eq!(names(&r.stack()), vec!["", "a"]);
}

#[test]
fn names_keep_characters_of_any_width() {
    let p = translated("é,日本語,+,ß,=");
    assert_eq!(rendered(&p), vec!["tmp_1 = é + 日本語", "ß = tmp_1"]);
}

#[test]
fn operator_match_comes_before_everything_else() {
    // `==`, `<=` and `>=` hold a `=`, and are operators of their own.
    assert_eq!(rendered(&translated("a,b,==")), vec!["tmp_1 = a == b"]);
    assert_eq!(rendered(&translated("a,b,>=")), vec!["tmp_1 = a >= b"]);
    // `<<=` is none: it is `<<` with an assignment.
    assert_eq!(rendered(&translated("a,b,<<=")), vec!["tmp_1 = a << b", "b = tmp_1"]);
    // An operator's symbol inside a longer token names no operator.
    assert_eq!(names(&translated("+a,a+,+ ").stack()), vec!["+a", "a+", "+ "]);
}

#[test]
fn emitted_instructions_are_a_copy() {
    let p = translated("a,b,+");
    let mut first: Vec<Instruction> = p.emit_insts();
    first.clear();
    let second = p.emit_insts();
    assert_eq!(second.len(), 1);
    assert_eq!(second[0].to_string(), "tmp_1 = a + b");
    let mut stack = p.stack();
    stack.clear();
    assert_eq!(p.stack().len(), 1);
}

#[test]
fn temporaries_are_no_more_than_characters() {
    for text in ["a,b,+", "a,!", "a,b,+=-=", "1,2,+,3,*,4,-,5,/", "a,}", "", "a,b,<<=,c,>>="] {
        let p = translated(text);
        assert!(p.tmp_index() as usize <= text.chars().count(), "{}", text);
        let made = p
            .emit_insts()
            .iter()
            .filter(|i| i.opcode().symbol() != "=")
            .count();
        assert_eq!(p.tmp_index() as usize, made, "{}", text);
    }
}
