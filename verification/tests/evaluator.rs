use eager_const::{
    collect, evaluation_failure, first_phase, next_phase, scrubs, splice, splice_lines,
    stage_action, to_string, ConstDecl, Datum, EntryKind, EvalError, FinalDecl, Next, OutputLine,
    Phase, SpliceError, StageAction,
};

fn decl(visibility: &str, name: &str, ty: &str, init: &str) -> ConstDecl {
    ConstDecl {
        visibility: visibility.to_string(),
        name: name.to_string(),
        ty: ty.to_string(),
        init: init.to_string(),
    }
}

fn parts(d: &FinalDecl) -> (&str, &str, &str, &str) {
    (&d.visibility, &d.name, &d.ty, &d.literal)
}

#[test]
fn zero_declarations_give_an_empty_list() {
    let finals = splice(&vec![], "").expect("nothing to splice");
    assert!(finals.is_empty());
    let finals = collect(&vec![], true, b"", b"").expect("nothing to collect");
    assert!(finals.is_empty());
}

#[test]
fn one_string_declaration() {
    let decls = vec![decl("", "FOO", "&str", "{ build() }")];
    let finals = splice(&decls, "\"Hello! one, two, 3!\"\n").expect("one line for one declaration");
    assert_eq!(finals.len(), 1);
    assert_eq!(parts(&finals[0]), ("", "FOO", "&str", "\"Hello! one, two, 3!\""));
    assert_eq!(finals[0].render(), "const FOO: &str = \"Hello! one, two, 3!\";");
}

#[test]
fn visibility_stands_before_const() {
    let d = FinalDecl {
        visibility: "pub(crate)".to_string(),
        name: "N".to_string(),
        ty: "u8".to_string(),
        literal: "7".to_string(),
    };
    assert_eq!(d.render(), "pub(crate) const N: u8 = 7;");
}

#[test]
fn lines_go_to_declarations_by_position() {
    let decls = vec![
        decl("pub", "A", "u8", "one()"),
        decl("", "B", "&[u8]", "two()"),
        decl("pub(crate)", "C", "Option<i8>", "three()"),
    ];
    let finals = splice(&decls, "1\n&[1,2,3,4,]\nSome(-3)\n").expect("three lines");
    assert_eq!(finals.len(), 3);
    assert_eq!(parts(&finals[0]), ("pub", "A", "u8", "1"));
    assert_eq!(parts(&finals[1]), ("", "B", "&[u8]", "&[1,2,3,4,]"));
    assert_eq!(parts(&finals[2]), ("pub(crate)", "C", "Option<i8>", "Some(-3)"));
}

#[test]
fn sequence_literal_comes_back_through_the_splicer() {
    let value = Datum::List((1..=4).map(Datum::Unsigned).collect());
    let line = to_string(&value).expect("a sequence has a literal form");
    assert_eq!(line, "&[1,2,3,4,]");
    let finals = splice(&vec![decl("", "S", "&[u64]", "vec![1, 2, 3, 4]")], &line)
        .expect("the literal is an expression");
    assert_eq!(finals[0].render(), "const S: &[u64] = &[1,2,3,4,];");
}

#[test]
fn last_line_needs_no_line_feed_and_returns_are_dropped() {
    let decls = vec![decl("", "A", "u8", "a()"), decl("", "B", "u8", "b()")];
    let finals = splice(&decls, "1\r\n2").expect("two lines");
    assert_eq!(finals[0].literal, "1");
    assert_eq!(finals[1].literal, "2");
}

#[test]
fn lines_beyond_the_declarations_are_not_looked_at() {
    let decls = vec![decl("", "A", "u8", "a()")];
    let finals = splice(&decls, "1\nthis is } not an expression\n").expect("first line is enough");
    assert_eq!(finals.len(), 1);
    assert_eq!(finals[0].literal, "1");
}

#[test]
fn missing_line_is_an_error() {
    let decls = vec![decl("", "A", "u8", "a()"), decl("", "B", "u8", "b()")];
    match splice(&decls, "1\n") {
        Err(SpliceError::MissingLine { index }) => assert_eq!(index, 1),
        other => panic!("unexpected: {:?}", other),
    }
    match splice(&decls, "") {
        Err(SpliceError::MissingLine { index }) => assert_eq!(index, 0),
        other => panic!("unexpected: {:?}", other),
    }
}

#[test]
fn line_that_is_no_expression_is_an_error() {
    let decls = vec![decl("", "A", "u8", "a()"), decl("", "B", "u8", "b()")];
    match splice(&decls, "1\n2 +\n") {
        Err(SpliceError::NotAnExpression { index }) => assert_eq!(index, 1),
        other => panic!("unexpected: {:?}", other),
    }
    match splice(&decls, "1; const X: u8 = 2\n3\n") {
        Err(SpliceError::NotAnExpression { index }) => assert_eq!(index, 0),
        other => panic!("unexpected: {:?}", other),
    }
    match splice(&decls, "\n3\n") {
        Err(SpliceError::NotAnExpression { index }) => assert_eq!(index, 0),
        other => panic!("unexpected: {:?}", other),
    }
}

#[test]
fn first_defect_decides() {
    let decls = vec![decl("", "A", "u8", "a()"), decl("", "B", "u8", "b()")];
    match splice(&decls, "(\n") {
        Err(SpliceError::NotAnExpression { index }) => assert_eq!(index, 0),
        other => panic!("unexpected: {:?}", other),
    }
}

#[test]
fn judged_lines_are_spliced_as_given() {
    let decls = vec![decl("", "A", "u8", "a()"), decl("", "B", "u8", "b()")];
    let line = |text: &str, ok: bool| OutputLine { text: text.to_string(), is_expression: ok };
    let finals = splice_lines(&decls, &vec![line("1", true), line("2", true), line("x", false)])
        .expect("two good lines");
    assert_eq!(finals[1].literal, "2");
    match splice_lines(&decls, &vec![line("1", true), line("2", false)]) {
        Err(SpliceError::NotAnExpression { index }) => assert_eq!(index, 1),
        other => panic!("unexpected: {:?}", other),
    }
    match splice_lines(&decls, &vec![line("1", true)]) {
        Err(SpliceError::MissingLine { index }) => assert_eq!(index, 1),
        other => panic!("unexpected: {:?}", other),
    }
    match splice_lines(&decls, &vec![line("1", false)]) {
        Err(SpliceError::NotAnExpression { index }) => assert_eq!(index, 0),
        other => panic!("unexpected: {:?}", other),
    }
}

#[test]
fn failed_run_carries_the_diagnostics() {
    let decls = vec![decl("", "A", "u8", "panic!()")];
    match collect(&decls, false, b"", b"thread 'main' panicked at src/main.rs:3:5") {
        Err(EvalError::Failed { message }) => {
            assert_eq!(message, "\nError: thread 'main' panicked at src/main.rs:3:5");
        }
        other => panic!("unexpected: {:?}", other),
    }
}

#[test]
fn failed_run_wins_over_its_output() {
    let decls = vec![decl("", "A", "u8", "1")];
    match collect(&decls, false, b"1\n", b"") {
        Err(EvalError::Failed { message }) => assert_eq!(message, "\nError: "),
        other => panic!("unexpected: {:?}", other),
    }
}

#[test]
fn diagnostics_that_are_not_text_are_read_lossily() {
    match collect(&vec![], false, b"", b"bad \xff byte") {
        Err(EvalError::Failed { message }) => {
            assert_eq!(message, "\nError: bad \u{fffd} byte");
        }
        other => panic!("unexpected: {:?}", other),
    }
}

#[test]
fn unsupported_value_surfaces_through_the_diagnostics() {
    let e = to_string(&Datum::Mapping).expect_err("a mapping has no literal form");
    let stderr = format!("serde_rust failed: Error({:?})", e.message());
    match collect(&vec![decl("", "M", "u8", "map()")], false, b"", stderr.as_bytes()) {
        Err(EvalError::Failed { message }) => assert!(message.contains("unsupported")),
        other => panic!("unexpected: {:?}", other),
    }
}

#[test]
fn evaluation_failure_puts_a_heading_before_the_diagnostics() {
    match evaluation_failure("boom") {
        EvalError::Failed { message } => assert_eq!(message, "\nError: boom"),
        other => panic!("unexpected: {:?}", other),
    }
}

#[test]
fn output_must_be_utf8() {
    let decls = vec![decl("", "A", "u8", "1")];
    assert!(matches!(collect(&decls, true, b"\xff\n", b""), Err(EvalError::NotUtf8)));
    assert!(matches!(collect(&vec![], true, b"\xc3", b""), Err(EvalError::NotUtf8)));
}

#[test]
fn collected_output_is_spliced() {
    let decls = vec![decl("pub", "NAME", "&str", "name()")];
    let finals = collect(&decls, true, "\"Zoë\"\n".as_bytes(), b"warning: unused").expect("ok");
    assert_eq!(finals[0].render(), "pub const NAME: &str = \"Zoë\";");
    match collect(&decls, true, b"", b"") {
        Err(EvalError::Splice(SpliceError::MissingLine { index })) => assert_eq!(index, 0),
        other => panic!("unexpected: {:?}", other),
    }
    match collect(&decls, true, b"let\n", b"") {
        Err(EvalError::Splice(SpliceError::NotAnExpression { index })) => assert_eq!(index, 0),
        other => panic!("unexpected: {:?}", other),
    }
}

#[test]
fn build_outputs_and_version_control_are_not_staged() {
    assert_eq!(stage_action("target", EntryKind::Directory), StageAction::Skip);
    assert_eq!(stage_action(".git", EntryKind::Directory), StageAction::Skip);
    assert_eq!(stage_action("target", EntryKind::File), StageAction::Skip);
    assert_eq!(stage_action(".git", EntryKind::File), StageAction::Skip);
}

#[test]
fn everything_else_is_staged_by_its_kind() {
    assert_eq!(stage_action("src", EntryKind::Directory), StageAction::CreateDirectory);
    assert_eq!(stage_action("Cargo.toml", EntryKind::File), StageAction::CopyFile);
    assert_eq!(stage_action("targets", EntryKind::Directory), StageAction::CreateDirectory);
    assert_eq!(stage_action(".gitignore", EntryKind::File), StageAction::CopyFile);
    assert_eq!(stage_action("Target", EntryKind::Directory), StageAction::CreateDirectory);
    assert_eq!(stage_action("dangling", EntryKind::Other), StageAction::Skip);
    assert_eq!(stage_action("", EntryKind::File), StageAction::CopyFile);
}

#[test]
fn toolchain_variables_are_scrubbed() {
    assert!(scrubs("CARGO"));
    assert!(scrubs("CARGO_"));
    assert!(scrubs("CARGO_MANIFEST_DIR"));
    assert!(scrubs("CARGO_PKG_NAME"));
}

#[test]
fn other_variables_stay() {
    assert!(!scrubs("PATH"));
    assert!(!scrubs("CARGOX"));
    assert!(!scrubs("CARG"));
    assert!(!scrubs("cargo"));
    assert!(!scrubs("cargo_home"));
    assert!(!scrubs("MY_CARGO_HOME"));
    assert!(!scrubs("RUSTFLAGS"));
    assert!(!scrubs(""));
}

#[test]
fn phases_run_in_order() {
    let order = [
        Phase::Clean,
        Phase::CreateRoot,
        Phase::Stage,
        Phase::Manifest,
        Phase::Entry,
        Phase::Build,
        Phase::Run,
        Phase::Splice,
    ];
    let mut phase = first_phase();
    for (i, expected) in order.iter().enumerate() {
        assert_eq!(phase, *expected);
        match next_phase(phase, true) {
            Next::Go(next) => phase = next,
            Next::Finish => assert_eq!(i, order.len() - 1),
            Next::Abort => panic!("a phase that succeeded does not abort"),
        }
    }
}

#[test]
fn failure_aborts_except_while_cleaning_and_building() {
    assert_eq!(next_phase(Phase::Clean, false), Next::Go(Phase::CreateRoot));
    assert_eq!(next_phase(Phase::Build, false), Next::Go(Phase::Run));
    for phase in [Phase::CreateRoot, Phase::Stage, Phase::Manifest, Phase::Entry, Phase::Run, Phase::Splice] {
        assert_eq!(next_phase(phase, false), Next::Abort);
    }
    assert_eq!(next_phase(Phase::Splice, true), Next::Finish);
}

#[test]
fn printed_literals_come_back_in_order() {
    let values = vec![
        Datum::Str("Hello! one, two, 3!".to_string()),
        Datum::List((1..=4).map(Datum::Unsigned).collect()),
        Datum::Present(Box::new(Datum::Signed(-3))),
        Datum::UnitVariant { name: "Mode".to_string(), variant: "Fast".to_string() },
    ];
    let decls: Vec<ConstDecl> = (0..values.len())
        .map(|i| decl("pub", &format!("C{}", i), "T", &format!("compute({})", i)))
        .collect();
    let mut stdout = String::new();
    for value in &values {
        stdout.push_str(&to_string(value).expect("the value has a literal form"));
        stdout.push('\n');
    }
    let finals = collect(&decls, true, stdout.as_bytes(), b"").expect("every line is a literal");
    assert_eq!(finals.len(), values.len());
    for (i, value) in values.iter().enumerate() {
        assert_eq!(finals[i].name, format!("C{}", i));
        assert_eq!(finals[i].literal, to_string(value).unwrap());
    }
    assert_eq!(finals[1].render(), "pub const C1: T = &[1,2,3,4,];");
}

#[test]
fn literal_with_a_line_feed_breaks_the_order() {
    let decls = vec![decl("", "A", "&str", "a()"), decl("", "B", "u8", "b()")];
    let mut stdout = to_string(&Datum::Str("two\nlines".to_string())).unwrap();
    stdout.push('\n');
    stdout.push_str("7\n");
    match splice(&decls, &stdout) {
        Err(SpliceError::NotAnExpression { index }) => assert_eq!(index, 0),
        other => panic!("unexpected: {:?}", other),
    }
}
