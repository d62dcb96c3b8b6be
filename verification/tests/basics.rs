use forth_times_the_charm::Machine;

/// What a fresh machine writes for the line.
fn stdout_of(line: &str) -> String {
    let mut machine = Machine::new();
    let _ = machine.eval(line);
    machine.printed()
}

#[test]
fn if_then_else() {
    assert_eq!(stdout_of("10 20 < if 1 else 0 then ."), "1\n");
}

#[test]
fn equal() {
    assert_eq!(stdout_of("10 10 = ."), "1\n");
}

#[test]
fn not_equal() {
    assert_eq!(stdout_of("10 20 <> ."), "1\n");
}

#[test]
fn less_than() {
    assert_eq!(stdout_of("10 20 < ."), "1\n");
}

#[test]
fn greater_than() {
    assert_eq!(stdout_of("10 20 > ."), "0\n");
}

#[test]
fn define() {
    assert_eq!(stdout_of(": double dup + ; 10 double ."), "20\n");
}

#[test]
fn duplication() {
    assert_eq!(stdout_of("10 dup + ."), "20\n");
}

#[test]
fn division() {
    assert_eq!(stdout_of("20 10 / ."), "2\n");
}

#[test]
fn multiplication() {
    assert_eq!(stdout_of("10 20 * ."), "200\n");
}

#[test]
fn subtraction() {
    assert_eq!(stdout_of("40 10 - ."), "30\n");
}

#[test]
fn addition() {
    assert_eq!(stdout_of("10 20 + ."), "30\n");
}

#[test]
fn it_runs() {
    let mut machine = Machine::new();
    assert_eq!(machine.eval(""), Ok(()));
    assert!(machine.stack.is_empty());
    assert!(machine.output.is_empty());
}
