use wmach::mach::{Insn, IoOp, MachErr, Program, SeekOp, Stmt, Target, WriteOp, is_label_id};
use wmach::tag::RuleStyle;
use wmach::compile::forge_symbol;

#[test]
fn lib_it_works() {
    assert_eq!(2 + 2, 4);
}

fn name(s: &str) -> Target {
    Target::Name(s.to_owned())
}

#[test]
fn resolution_numbers_instructions_and_labels() {
    let stmts = vec![
        Stmt::Label("start".to_owned()),
        Stmt::Write(WriteOp::SetBit),
        Stmt::Label("mid".to_owned()),
        Stmt::Seek(SeekOp::Right),
        Stmt::Jmp(name("start"), name("mid")),
    ];
    let p = Program::from_statements(&stmts).unwrap();
    assert_eq!(
        p.instructions,
        vec![Insn::Write(WriteOp::SetBit), Insn::Seek(SeekOp::Right), Insn::Jmp(0, 1)]
    );
    assert_eq!(p.labels.len(), 2);
    assert_eq!(p.labels[0], ("start".to_owned(), 0));
    assert_eq!(p.labels[1], ("mid".to_owned(), 1));
}

#[test]
fn resolution_treats_fallthrough_as_next_instruction() {
    let stmts = vec![
        Stmt::Jmp(name("end"), Target::NextAddress),
        Stmt::Debug,
        Stmt::Label("end".to_owned()),
    ];
    let p = Program::from_statements(&stmts).unwrap();
    assert_eq!(p.instructions, vec![Insn::Jmp(2, 1), Insn::Debug]);
}

#[test]
fn resolution_rejects_duplicate_label() {
    let stmts = vec![
        Stmt::Label("a".to_owned()),
        Stmt::Debug,
        Stmt::Label("a".to_owned()),
    ];
    let r = Program::from_statements(&stmts);
    match r {
        Err(MachErr::DuplicateLabel { label }) => assert_eq!(label, "a"),
        other => panic!("expected a duplicate label error, got {:?}", other),
    }
}

#[test]
fn resolution_rejects_unknown_target() {
    let stmts = vec![Stmt::Jmp(name("nope"), Target::NextAddress)];
    let r = Program::from_statements(&stmts);
    match r {
        Err(MachErr::UnknownTarget { target }) => assert_eq!(target, name("nope")),
        other => panic!("expected an unknown target error, got {:?}", other),
    }
}

#[test]
fn label_id_bytes() {
    assert!(is_label_id(b'a'));
    assert!(is_label_id(b'z'));
    assert!(is_label_id(b'A'));
    assert!(is_label_id(b'Z'));
    assert!(is_label_id(b'0'));
    assert!(is_label_id(b'9'));
    assert!(is_label_id(b'\''));
    assert!(is_label_id(b'_'));
    assert!(!is_label_id(b' '));
    assert!(!is_label_id(b':'));
    assert!(!is_label_id(b'-'));
}

#[test]
fn forge_symbol_appends_position() {
    assert_eq!(forge_symbol(5, "x"), "x_5");
    assert_eq!(forge_symbol(0, "s0"), "s0_0");
    assert_eq!(forge_symbol(1234, "even_net"), "even_net_1234");
}

#[test]
fn compile_emits_namespaced_blocks() {
    let stmts = vec![
        Stmt::Label("L".to_owned()),
        Stmt::Io(IoOp::In),
        Stmt::Io(IoOp::Out),
        Stmt::Jmp(name("L"), name("L")),
    ];
    let machine = Program::from_statements(&stmts).unwrap();
    assert_eq!(machine.instructions, vec![Insn::Io(IoOp::In), Insn::Io(IoOp::Out), Insn::Jmp(0, 0)]);
    let tag = machine.compile().unwrap();
    assert_eq!(tag.deletion_number, 2);
    assert_eq!(tag.queue, vec!["s0_0".to_owned(), "s0_0".to_owned()]);
    // 4 rules per io instruction and 16 for the jump
    assert_eq!(tag.rules.len(), 24);
    assert_eq!(
        tag.rules[0],
        ("x_0".to_owned(), RuleStyle::Pure(vec!["x_1".to_owned(), "x_1".to_owned()]))
    );
    assert_eq!(
        tag.rules[2],
        (
            "s0_0".to_owned(),
            RuleStyle::Input(
                vec!["s0_1".to_owned(), "s0_1".to_owned()],
                vec!["s1_1".to_owned(), "s1_1".to_owned()],
            )
        )
    );
    assert_eq!(
        tag.rules[6],
        ("s0_1".to_owned(), RuleStyle::Output(vec!["s0_2".to_owned(), "s0_2".to_owned()], false))
    );
}

#[test]
fn compile_write_and_seek_blocks() {
    let stmts = vec![Stmt::Write(WriteOp::UnsetBit), Stmt::Seek(SeekOp::Left), Stmt::Debug];
    let machine = Program::from_statements(&stmts).unwrap();
    let tag = machine.compile().unwrap();
    // 4 for the write, 18 for the seek, 8 for the debug marker
    assert_eq!(tag.rules.len(), 30);
    assert_eq!(
        tag.rules[2],
        ("s0_0".to_owned(), RuleStyle::Pure(vec!["s0_1".to_owned(), "s0_1".to_owned()]))
    );
    assert_eq!(
        tag.rules[3],
        ("s1_0".to_owned(), RuleStyle::Pure(vec!["s0_1".to_owned(), "s0_1".to_owned()]))
    );
    // the seek's parity productions: odd emits nothing, even emits padding
    assert_eq!(tag.rules[15], ("odd_net_1".to_owned(), RuleStyle::Pure(Vec::new())));
    assert_eq!(tag.rules[16], ("even_net_1".to_owned(), RuleStyle::Pure(vec!["pad_1".to_owned()])));
}

#[test]
fn compile_then_assemble_round() {
    let stmts = vec![
        Stmt::Label("L".to_owned()),
        Stmt::Io(IoOp::In),
        Stmt::Io(IoOp::Out),
        Stmt::Jmp(name("L"), name("L")),
    ];
    let machine = Program::from_statements(&stmts).unwrap();
    let tag = machine.compile().unwrap();
    let (map, bin) = tag.assemble().unwrap();
    // every id fits one byte, so the header says width 1
    assert!(map.len() <= 256);
    assert_eq!(u32::from_le_bytes([bin[8], bin[9], bin[10], bin[11]]), 1);
    assert_eq!(u64::from_le_bytes([bin[0], bin[1], bin[2], bin[3], bin[4], bin[5], bin[6], bin[7]]), 24);
}
