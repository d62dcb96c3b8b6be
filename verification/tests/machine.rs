use forth_times_the_charm::machine::MAX_DEPTH;
use forth_times_the_charm::{Definition, ForthError, Keyword, Machine, NativeOp, Token};

fn after(line: &str) -> (Machine, Result<(), ForthError>) {
    let mut machine = Machine::new();
    let r = machine.eval(line);
    (machine, r)
}

#[test]
fn new_machine_is_empty_and_knows_the_builtins() {
    let machine = Machine::new();
    assert!(machine.stack.is_empty());
    assert!(machine.output.is_empty());
    let expected = [
        ("+", NativeOp::Add),
        ("-", NativeOp::Sub),
        ("*", NativeOp::Mul),
        ("/", NativeOp::Div),
        ("dup", NativeOp::Dup),
        (".", NativeOp::Print),
        ("drop", NativeOp::Drop),
        ("swap", NativeOp::Swap),
        ("=", NativeOp::Equal),
        ("<>", NativeOp::NotEqual),
        ("<", NativeOp::Less),
        (">", NativeOp::Greater),
    ];
    for (name, op) in expected {
        assert_eq!(machine.definitions.get(&name.to_string()), Some(Definition::Native(op)));
    }
    assert_eq!(machine.definitions.get(&"if".to_string()), None);
    assert_eq!(machine.definitions.get(&"DUP".to_string()), None);
}

#[test]
fn sum_difference_and_product_are_printed() {
    let (m, r) = after("3 4 + .");
    assert_eq!((r, m.stack, m.output), (Ok(()), vec![7], vec![7]));
    let (m, r) = after("3 10 - .");
    assert_eq!((r, m.stack, m.output), (Ok(()), vec![-7], vec![-7]));
    let (m, r) = after("-6 7 * .");
    assert_eq!((r, m.stack, m.output), (Ok(()), vec![-42], vec![-42]));
}

#[test]
fn arithmetic_wraps_at_64_bits() {
    let (m, r) = after("9223372036854775807 1 + .");
    assert_eq!((r, m.output), (Ok(()), vec![i64::MIN]));
    let (m, r) = after("-9223372036854775808 1 - .");
    assert_eq!((r, m.output), (Ok(()), vec![i64::MAX]));
    let (m, r) = after("4611686018427387904 4 * .");
    assert_eq!((r, m.output), (Ok(()), vec![0]));
    let (m, r) = after("9223372036854775807 dup + .");
    assert_eq!((r, m.output), (Ok(()), vec![-2]));
}

#[test]
fn division_rounds_toward_zero() {
    assert_eq!(after("7 2 / .").0.output, vec![3]);
    assert_eq!(after("-7 2 / .").0.output, vec![-3]);
    assert_eq!(after("7 -2 / .").0.output, vec![-3]);
    assert_eq!(after("-7 -2 / .").0.output, vec![3]);
    assert_eq!(after("0 5 / .").0.output, vec![0]);
    assert_eq!(after("-9223372036854775808 1 / .").0.output, vec![i64::MIN]);
}

#[test]
fn division_by_zero_fails_and_prints_nothing() {
    let (m, r) = after("1 0 / .");
    assert_eq!(r, Err(ForthError::DivByZero));
    assert!(m.output.is_empty());
    assert_eq!(m.stack, vec![1, 0]);
}

#[test]
fn least_value_by_minus_one_has_no_quotient() {
    let (m, r) = after("-9223372036854775808 -1 / .");
    assert_eq!(r, Err(ForthError::DivByZero));
    assert!(m.output.is_empty());
    assert_eq!(m.stack, vec![i64::MIN, -1]);
}

#[test]
fn dup_add_doubles() {
    assert_eq!(after("21 dup + .").0.output, vec![42]);
    assert_eq!(after("-4 dup + .").0.output, vec![-8]);
    assert_eq!(after("0 dup + .").0.output, vec![0]);
}

#[test]
fn comparisons_push_zero_or_one() {
    assert_eq!(after("10 10 = .").0.output, vec![1]);
    assert_eq!(after("10 20 = .").0.output, vec![0]);
    assert_eq!(after("10 20 <> .").0.output, vec![1]);
    assert_eq!(after("10 10 <> .").0.output, vec![0]);
    assert_eq!(after("10 20 < .").0.output, vec![1]);
    assert_eq!(after("20 10 < .").0.output, vec![0]);
    assert_eq!(after("10 20 > .").0.output, vec![0]);
    assert_eq!(after("20 10 > .").0.output, vec![1]);
    assert_eq!(after("7 8 <").0.stack, vec![1]);
}

#[test]
fn print_keeps_the_top() {
    let (m, r) = after("5 . .");
    assert_eq!((r, m.stack, m.output), (Ok(()), vec![5], vec![5, 5]));
}

#[test]
fn swap_and_drop() {
    assert_eq!(after("1 2 swap").0.stack, vec![2, 1]);
    assert_eq!(after("1 2 3 swap").0.stack, vec![1, 3, 2]);
    assert_eq!(after("1 2 drop").0.stack, vec![1]);
    let (m, r) = after("drop");
    assert_eq!((r, m.stack), (Ok(()), vec![]));
}

#[test]
fn underflow_leaves_the_stack_as_it_was() {
    for word in ["+", "-", "*", "/", "dup", "swap", ".", "=", "<>", "<", ">"] {
        let (m, r) = after(word);
        assert_eq!(r, Err(ForthError::StackUnderflow), "{}", word);
        assert!(m.stack.is_empty());
        assert!(m.output.is_empty());
    }
    for word in ["+", "-", "*", "/", "swap", "=", "<>", "<", ">"] {
        let (m, r) = after(&format!("9 {}", word));
        assert_eq!(r, Err(ForthError::StackUnderflow), "{}", word);
        assert_eq!(m.stack, vec![9]);
    }
}

#[test]
fn what_ran_before_a_failure_stays() {
    let (m, r) = after("1 2 + . drop drop +");
    assert_eq!(r, Err(ForthError::StackUnderflow));
    assert!(m.stack.is_empty());
    assert_eq!(m.output, vec![3]);
}

#[test]
fn unknown_word_fails_before_anything_runs() {
    let (m, r) = after("1 2 + . foo");
    assert_eq!(r, Err(ForthError::WordNotDefined("foo".to_string())));
    assert!(m.stack.is_empty());
    assert!(m.output.is_empty());
}

#[test]
fn definitions_closed_before_an_unknown_word_stay() {
    let mut m = Machine::new();
    assert_eq!(m.eval(": one 1 ; zzz"), Err(ForthError::WordNotDefined("zzz".to_string())));
    assert_eq!(m.eval("one ."), Ok(()));
    assert_eq!(m.output, vec![1]);
}

#[test]
fn a_definition_holds_its_body_joined_by_single_spaces() {
    let mut m = Machine::new();
    assert_eq!(m.lex(":   inc \t 1    +  ;"), Ok(vec![]));
    assert_eq!(
        m.definitions.get(&"inc".to_string()),
        Some(Definition::Tokens("1 +".to_string()))
    );
    assert_eq!(m.eval("41 inc ."), Ok(()));
    assert_eq!(m.output, vec![42]);
}

#[test]
fn a_definition_lasts_over_lines() {
    let mut m = Machine::new();
    assert_eq!(m.eval(": sq dup * ;"), Ok(()));
    assert_eq!(m.eval("7 sq ."), Ok(()));
    assert_eq!(m.eval("-3 sq ."), Ok(()));
    assert_eq!(m.output, vec![49, 9]);
}

#[test]
fn an_empty_body_does_nothing() {
    let mut m = Machine::new();
    assert_eq!(m.eval(": noop ; 5 noop ."), Ok(()));
    assert_eq!(m.definitions.get(&"noop".to_string()), Some(Definition::Tokens(String::new())));
    assert_eq!((m.stack, m.output), (vec![5], vec![5]));
}

#[test]
fn an_open_definition_is_dropped_at_the_end_of_the_line() {
    let mut m = Machine::new();
    assert_eq!(m.eval("1 : foo 2 3"), Ok(()));
    assert_eq!(m.stack, vec![1]);
    assert_eq!(m.definitions.get(&"foo".to_string()), None);
    assert_eq!(m.eval("foo"), Err(ForthError::WordNotDefined("foo".to_string())));
}

#[test]
fn a_definition_without_a_name_installs_nothing() {
    let mut m = Machine::new();
    assert_eq!(m.eval(": ; 4 ."), Ok(()));
    assert_eq!(m.output, vec![4]);
    assert_eq!(m.definitions.get(&String::new()), None);
}

#[test]
fn a_stray_semicolon_is_an_unknown_word() {
    assert_eq!(after("1 ;").1, Err(ForthError::WordNotDefined(";".to_string())));
}

#[test]
fn redefining_overwrites() {
    let mut m = Machine::new();
    assert_eq!(m.eval(": f 1 ; : f 2 ; f ."), Ok(()));
    assert_eq!(m.output, vec![2]);
    assert_eq!(m.definitions.get(&"f".to_string()), Some(Definition::Tokens("2".to_string())));
}

#[test]
fn a_builtin_word_can_be_redefined() {
    let mut m = Machine::new();
    assert_eq!(m.eval(": + - ; 5 3 + ."), Ok(()));
    assert_eq!(m.output, vec![2]);
    assert_eq!(m.definitions.get(&"+".to_string()), Some(Definition::Tokens("-".to_string())));
}

#[test]
fn a_word_is_resolved_when_it_is_read() {
    let mut m = Machine::new();
    assert_eq!(m.eval(": f 1 ; f : f 2 ; f"), Ok(()));
    assert_eq!(m.stack, vec![1, 2]);
}

#[test]
fn a_body_is_tokenized_when_it_runs() {
    let mut m = Machine::new();
    assert_eq!(m.eval(": g h ;"), Ok(()));
    assert_eq!(m.eval("g"), Err(ForthError::WordNotDefined("h".to_string())));
    assert_eq!(m.eval(": h 8 ;"), Ok(()));
    assert_eq!(m.eval("g ."), Ok(()));
    assert_eq!(m.output, vec![8]);
}

#[test]
fn a_name_that_writes_a_number_stays_a_number() {
    let mut m = Machine::new();
    assert_eq!(m.eval(": 5 6 ; 5 ."), Ok(()));
    assert_eq!(m.output, vec![5]);
}

#[test]
fn any_value_but_zero_is_true() {
    assert_eq!(after("-5 if 1 else 2 then .").0.output, vec![1]);
    assert_eq!(after("1 if 1 else 2 then .").0.output, vec![1]);
    assert_eq!(after("0 if 1 else 2 then .").0.output, vec![2]);
}

#[test]
fn a_conditional_without_else() {
    assert_eq!(after("9 1 if 3 + then").0.stack, vec![12]);
    assert_eq!(after("9 0 if 3 + then").0.stack, vec![9]);
}

#[test]
fn the_condition_is_taken_when_if_is_reached() {
    let (m, r) = after("7 1 if dup then");
    assert_eq!((r, m.stack), (Ok(()), vec![7, 7]));
}

#[test]
fn an_inner_if_finds_the_stack_as_it_stands() {
    // The outer branch is still being gathered when the inner `if` is
    // reached, so its `2 2` is not on the stack yet: each `if` takes one
    // of the leading values, and each body runs at its own `then`.
    let (m, r) = after("1 1 if 2 2 if 3 else 4 then else 5 5 if 6 else 7 then then .");
    assert_eq!(r, Ok(()));
    assert_eq!(m.stack, vec![6, 2, 2]);
    assert_eq!(m.output, vec![2]);
}

#[test]
fn an_open_conditional_is_dropped_at_the_end() {
    let (m, r) = after("5 1 if 2 3");
    assert_eq!((r, m.stack), (Ok(()), vec![5]));
}

#[test]
fn if_on_an_empty_stack_underflows() {
    let (m, r) = after("if 1 then");
    assert_eq!(r, Err(ForthError::StackUnderflow));
    assert!(m.stack.is_empty());
}

#[test]
fn else_or_then_without_if_is_unbalanced() {
    let (m, r) = after("1 else 2");
    assert_eq!((r, m.stack), (Err(ForthError::UnbalancedIf), vec![1]));
    assert_eq!(after("then").1, Err(ForthError::UnbalancedIf));
    assert_eq!(after("1 if 2 then then").1, Err(ForthError::UnbalancedIf));
}

#[test]
fn do_is_not_implemented() {
    assert_eq!(after("do").1, Err(ForthError::NotImplemented));
    assert_eq!(after("1 if do then").1, Err(ForthError::NotImplemented));
    assert_eq!(after("0 if 1 else do then").1, Err(ForthError::NotImplemented));
}

#[test]
fn a_word_that_uses_itself_exceeds_the_depth() {
    let mut m = Machine::new();
    assert_eq!(m.eval(": f 1 f ;"), Ok(()));
    assert_eq!(m.eval("f"), Err(ForthError::DepthExceeded));
    assert_eq!(m.stack.len(), MAX_DEPTH);
}

#[test]
fn depth_counts_uses_of_words_and_closed_conditionals() {
    let mut m = Machine::new();
    let number = vec![Token::Number(3), Token::Op(Definition::Native(NativeOp::Dup))];
    assert_eq!(m.exec_at(number, 0), Ok(()));
    assert_eq!(m.stack, vec![3, 3]);
    let word = vec![Token::Op(Definition::Tokens("1".to_string()))];
    assert_eq!(m.exec_at(word.clone(), 0), Err(ForthError::DepthExceeded));
    assert_eq!(m.exec_at(word, 1), Ok(()));
    assert_eq!(m.stack, vec![3, 3, 1]);
    let conditional = vec![
        Token::Keyword(Keyword::If),
        Token::Number(4),
        Token::Keyword(Keyword::Then),
    ];
    assert_eq!(m.exec_at(conditional.clone(), 0), Err(ForthError::DepthExceeded));
    assert_eq!(m.stack, vec![3, 3]);
    assert_eq!(m.exec_at(conditional, 1), Ok(()));
    assert_eq!(m.stack, vec![3, 4]);
}

#[test]
fn lex_resolves_numbers_words_and_keywords() {
    let mut m = Machine::new();
    assert_eq!(
        m.lex("12 -3 +5 007 dup if else then do -"),
        Ok(vec![
            Token::Number(12),
            Token::Number(-3),
            Token::Number(5),
            Token::Number(7),
            Token::Op(Definition::Native(NativeOp::Dup)),
            Token::Keyword(Keyword::If),
            Token::Keyword(Keyword::Else),
            Token::Keyword(Keyword::Then),
            Token::Keyword(Keyword::Do),
            Token::Op(Definition::Native(NativeOp::Sub)),
        ])
    );
    assert!(m.stack.is_empty());
    assert_eq!(m.lex(""), Ok(vec![]));
    assert_eq!(m.lex("  \t \n "), Ok(vec![]));
}

#[test]
fn lex_rejects_what_is_no_number() {
    let mut m = Machine::new();
    for word in ["9223372036854775808", "1_000", "0x10", "1.5", "--1", "1-", "IF", "Dup"] {
        assert_eq!(m.lex(word), Err(ForthError::WordNotDefined(word.to_string())), "{}", word);
    }
    assert_eq!(m.lex("-9223372036854775808"), Ok(vec![Token::Number(i64::MIN)]));
    assert_eq!(m.lex("9223372036854775807"), Ok(vec![Token::Number(i64::MAX)]));
}

#[test]
fn a_snapshot_survives_a_redefinition() {
    let mut m = Machine::new();
    assert_eq!(m.eval(": f 1 ;"), Ok(()));
    let tokens = m.lex("f").unwrap();
    assert_eq!(tokens, vec![Token::Op(Definition::Tokens("1".to_string()))]);
    assert_eq!(m.eval(": f 2 ;"), Ok(()));
    assert_eq!(m.exec(tokens), Ok(()));
    assert_eq!(m.stack, vec![1]);
}

#[test]
fn any_whitespace_separates_words() {
    assert_eq!(after("1\t2\n+\r\n .").0.output, vec![3]);
    assert_eq!(after("1\u{a0}2\u{3000}+\u{2003}.").0.output, vec![3]);
    assert_eq!(after("\u{b}4\u{c}5\u{85}*\u{1680}.\u{2028}").0.output, vec![20]);
}

#[test]
fn run_a_builtin_and_a_user_word() {
    let mut m = Machine::new();
    m.stack = vec![2, 5];
    assert_eq!(m.run(Definition::Native(NativeOp::Sub)), Ok(()));
    assert_eq!(m.stack, vec![-3]);
    assert_eq!(m.run(Definition::Tokens("dup * .".to_string())), Ok(()));
    assert_eq!((m.stack.clone(), m.output.clone()), (vec![9], vec![9]));
    assert_eq!(
        m.run(Definition::Tokens("nope".to_string())),
        Err(ForthError::WordNotDefined("nope".to_string()))
    );
    assert_eq!(m.run(Definition::Native(NativeOp::Add)), Err(ForthError::StackUnderflow));
    assert_eq!(m.stack, vec![9]);
}

#[test]
fn a_word_behaves_as_its_body_in_place() {
    let (a, ra) = after(": double dup + ; 10 double .");
    let (b, rb) = after("10 dup + .");
    assert_eq!(ra, rb);
    assert_eq!((a.stack, a.output), (b.stack, b.output));
    let (a, ra) = after(": pick 0 if 1 else 2 then ; pick .");
    let (b, rb) = after("0 if 1 else 2 then .");
    assert_eq!(ra, rb);
    assert_eq!((a.stack, a.output), (b.stack, b.output));
}

#[test]
fn printed_text_has_one_line_for_each_value() {
    let mut m = Machine::new();
    assert_eq!(m.printed(), "");
    assert_eq!(m.eval("1 . -20 . 300 dup * ."), Ok(()));
    assert_eq!(m.printed(), "1\n-20\n90000\n");
    assert_eq!(m.eval("0 1 - 0 /"), Err(ForthError::DivByZero));
    assert_eq!(m.printed(), "1\n-20\n90000\n");
}
