use wmach::interp::{interpret, RunStop};
use wmach::mach::{Insn, IoOp, MachErr, Program, SeekOp, Stmt, Target, WriteOp};
use wmach::parse::parse_statements;

#[test]
fn parses_the_seven_mnemonics() {
    let stmts = parse_statements(b"+-<>,.!").unwrap();
    assert_eq!(
        stmts,
        vec![
            Stmt::Write(WriteOp::SetBit),
            Stmt::Write(WriteOp::UnsetBit),
            Stmt::Seek(SeekOp::Left),
            Stmt::Seek(SeekOp::Right),
            Stmt::Io(IoOp::In),
            Stmt::Io(IoOp::Out),
            Stmt::Debug,
        ]
    );
}

#[test]
fn parses_labels_and_jumps() {
    let stmts = parse_statements(b"loop: + jmp loop\n- jmp a, b").unwrap();
    assert_eq!(
        stmts,
        vec![
            Stmt::Label("loop".to_owned()),
            Stmt::Write(WriteOp::SetBit),
            Stmt::Jmp(Target::Name("loop".to_owned()), Target::NextAddress),
            Stmt::Write(WriteOp::UnsetBit),
            Stmt::Jmp(Target::Name("a".to_owned()), Target::Name("b".to_owned())),
        ]
    );
}

#[test]
fn skips_comments_and_whitespace() {
    let stmts = parse_statements(b"/* double */ +\n\t/* and back */ -").unwrap();
    assert_eq!(stmts, vec![Stmt::Write(WriteOp::SetBit), Stmt::Write(WriteOp::UnsetBit)]);
    assert_eq!(parse_statements(b"  \n\t ").unwrap(), Vec::<Stmt>::new());
}

#[test]
fn rejects_bad_source() {
    assert!(matches!(parse_statements(b"/* open"), Err(MachErr::GeneralError { .. })));
    assert!(matches!(parse_statements(b"@"), Err(MachErr::GeneralError { .. })));
    assert!(matches!(parse_statements(b"jmp"), Err(MachErr::GeneralError { .. })));
    assert!(matches!(parse_statements(b"jmp a,"), Err(MachErr::GeneralError { .. })));
    assert!(matches!(parse_statements(b"word"), Err(MachErr::GeneralError { .. })));
}

#[test]
fn from_text_loads_and_resolves() {
    let p = Program::from_text(b"L: , . jmp L, L").unwrap();
    assert_eq!(p.instructions, vec![Insn::Io(IoOp::In), Insn::Io(IoOp::Out), Insn::Jmp(0, 0)]);
    assert!(matches!(
        Program::from_text(b"jmp nowhere"),
        Err(MachErr::UnknownTarget { .. })
    ));
    assert!(matches!(
        Program::from_text(b"a: ! a: !"),
        Err(MachErr::DuplicateLabel { .. })
    ));
}

#[test]
fn echo_source_runs_end_to_end() {
    let p = Program::from_text(b"/* copy stdin to stdout */ L: , . jmp L, L").unwrap();
    let (out, stop) = interpret(p, vec![0x68, 0x69], 1_000_000);
    assert_eq!(stop, RunStop::Halted);
    assert_eq!(out, vec![0x68, 0x69]);
}
