use wmach::interp::{BbStatus, BitBuffer, Memory, RunStop, State, interpret};
use wmach::mach::{Insn, IoOp, Program, SeekOp, Stmt, Target, WriteOp};

fn name(s: &str) -> Target {
    Target::Name(s.to_owned())
}

fn resolved(stmts: Vec<Stmt>) -> Program {
    Program::from_statements(&stmts).unwrap()
}

#[test]
fn bit_buffer_reads_and_writes_under_cursor() {
    let mut bb = BitBuffer::new();
    assert!(!bb.read());
    bb.set();
    assert!(bb.read());
    assert_eq!(bb.get(), 1);
    bb.unset();
    assert!(!bb.read());
    bb.write(true);
    assert_eq!(bb.left(), BbStatus::Fine);
    assert_eq!(bb.offset(), 1);
    bb.write(true);
    assert_eq!(bb.get(), 3);
    assert_eq!(bb.right(), BbStatus::Fine);
    assert_eq!(bb.right(), BbStatus::Min);
    bb.restore(0xff, BbStatus::Max);
    assert_eq!(bb.offset(), 7);
    assert_eq!(bb.get(), 0xff);
    assert!(bb.read());
    assert_eq!(bb.left(), BbStatus::Max);
}

#[test]
fn tape_shift_right_then_left_is_identity() {
    // seek-right; seek-left; debug — ends back at position 0 with head 0
    let mut m = Memory::new();
    m.seek_right();
    m.seek_left();
    assert_eq!(m.position, 0);
    assert!(!m.read());

    let p = resolved(vec![Stmt::Seek(SeekOp::Right), Stmt::Seek(SeekOp::Left), Stmt::Debug]);
    let mut s = State::new(p.instructions, Vec::new());
    let stop = s.run(1000);
    assert_eq!(stop, RunStop::Halted);
    assert_eq!(s.pc, 3);
    assert_eq!(s.mem.position, 0);
    assert!(!s.mem.read());
}

#[test]
fn tape_keeps_bits_across_byte_promotion() {
    let mut m = Memory::new();
    m.set();
    for _ in 0..19 {
        m.seek_right();
    }
    m.set();
    assert_eq!(m.position, 19);
    for _ in 0..19 {
        m.seek_left();
    }
    assert_eq!(m.position, 0);
    assert!(m.read());
    for _ in 0..19 {
        m.seek_right();
    }
    assert!(m.read());
    m.seek_right();
    assert!(!m.read());
    for _ in 0..40 {
        m.seek_left();
    }
    assert_eq!(m.position, -20);
    assert!(!m.read());
}

#[test]
fn write_then_branch_falls_off_the_end_via_true_label() {
    // write-set; jump TrueLabel, FalseLabel — both labels sit past the end
    let p = resolved(vec![
        Stmt::Write(WriteOp::SetBit),
        Stmt::Jmp(name("TrueLabel"), name("FalseLabel")),
        Stmt::Label("TrueLabel".to_owned()),
        Stmt::Label("FalseLabel".to_owned()),
    ]);
    assert_eq!(p.instructions, vec![Insn::Write(WriteOp::SetBit), Insn::Jmp(2, 2)]);
    let mut s = State::new(p.instructions, Vec::new());
    let stop = s.run(1000);
    assert_eq!(stop, RunStop::Halted);
    // a normal halt: the counter fell off the end, not the input sentinel
    assert_eq!(s.pc, 2);
    assert!(s.mem.read());
}

#[test]
fn echo_loop_copies_one_byte_and_halts_on_sentinel() {
    // L: io-in; io-out; jump L with input 0x41 then end of stream
    let p = resolved(vec![
        Stmt::Label("L".to_owned()),
        Stmt::Io(IoOp::In),
        Stmt::Io(IoOp::Out),
        Stmt::Jmp(name("L"), name("L")),
    ]);
    let (out, stop) = interpret(p, vec![0x41], 100_000);
    assert_eq!(stop, RunStop::Halted);
    assert_eq!(out, vec![0x41]);
}

#[test]
fn echo_loop_copies_many_bytes() {
    let p = resolved(vec![
        Stmt::Label("L".to_owned()),
        Stmt::Io(IoOp::In),
        Stmt::Io(IoOp::Out),
        Stmt::Jmp(name("L"), name("L")),
    ]);
    let (out, stop) = interpret(p, vec![0x00, 0x7f, 0x80, 0x42], 1_000_000);
    assert_eq!(stop, RunStop::Halted);
    assert_eq!(out, vec![0x00, 0x7f, 0x80, 0x42]);
}

#[test]
fn input_sentinel_halts_immediately() {
    let p = resolved(vec![
        Stmt::Label("L".to_owned()),
        Stmt::Io(IoOp::In),
        Stmt::Io(IoOp::Out),
        Stmt::Jmp(name("L"), name("L")),
    ]);
    let (out, stop) = interpret(p, vec![0xff, 0x41], 100_000);
    assert_eq!(stop, RunStop::Halted);
    assert!(out.is_empty());
}

#[test]
fn raw_ff_byte_is_taken_for_end_of_stream() {
    // the buffer refill treats a literal 0xff input byte as end of input
    let p = resolved(vec![
        Stmt::Label("L".to_owned()),
        Stmt::Io(IoOp::In),
        Stmt::Io(IoOp::Out),
        Stmt::Jmp(name("L"), name("L")),
    ]);
    let (out, stop) = interpret(p, vec![0x41, 0xff, 0x42], 100_000);
    assert_eq!(stop, RunStop::Halted);
    assert_eq!(out, vec![0x41]);
}

#[test]
fn output_flushes_every_eighth_bit() {
    let mut stmts = vec![Stmt::Write(WriteOp::SetBit)];
    for _ in 0..8 {
        stmts.push(Stmt::Io(IoOp::Out));
    }
    let p = resolved(stmts);
    let (out, stop) = interpret(p, Vec::new(), 1000);
    assert_eq!(stop, RunStop::Halted);
    assert_eq!(out, vec![0xff]);
}

#[test]
fn partial_output_byte_stays_buffered() {
    let p = resolved(vec![Stmt::Write(WriteOp::SetBit), Stmt::Io(IoOp::Out)]);
    let (out, stop) = interpret(p, Vec::new(), 1000);
    assert_eq!(stop, RunStop::Halted);
    assert!(out.is_empty());
}

#[test]
fn fuel_runs_out_on_a_tight_loop() {
    let p = resolved(vec![Stmt::Label("L".to_owned()), Stmt::Jmp(name("L"), name("L"))]);
    let (out, stop) = interpret(p, Vec::new(), 100);
    assert_eq!(stop, RunStop::FuelOut);
    assert!(out.is_empty());
}

#[test]
fn bit_buffer_render_marks_the_cursor() {
    let mut bb = BitBuffer::new();
    assert_eq!(bb.render(), "{0000000[0]}");
    bb.set();
    assert_eq!(bb.render(), "{0000000[1]}");
    bb.restore(0xff, BbStatus::Max);
    assert_eq!(bb.render(), "{[1]1111111}");
}

#[test]
fn memory_render_shows_position_and_history() {
    let mut marked = Memory::new();
    assert_eq!(marked.render(), "0: {0000000[0]}");
    marked.set();
    for _ in 0..8 {
        marked.seek_right();
    }
    assert_eq!(marked.render(), "8: 01{0000000[0]}");

    let mut m = Memory::new();
    for _ in 0..8 {
        m.seek_right();
    }
    assert_eq!(m.render(), "8: 00{0000000[0]}");
    for _ in 0..9 {
        m.seek_left();
    }
    assert_eq!(m.position, -1);
    assert_eq!(m.render(), "-1: {000000[0]0}00");
}

#[test]
fn state_render_snapshots_the_run() {
    let p = resolved(vec![
        Stmt::Label("L".to_owned()),
        Stmt::Io(IoOp::In),
        Stmt::Io(IoOp::Out),
        Stmt::Jmp(name("L"), name("L")),
    ]);
    let s = State::new(p.instructions, Vec::new());
    assert_eq!(
        s.render(),
        "{\n    memory: 0: {0000000[0]}\n    code: 0: io-in\n    input: {0000000[0]}\n    output: {0000000[0]}\n}"
    );
}

#[test]
fn debug_marker_records_snapshots() {
    let p = resolved(vec![Stmt::Write(WriteOp::SetBit), Stmt::Debug]);
    let mut s = State::new(p.instructions, Vec::new());
    let stop = s.run(10);
    assert_eq!(stop, RunStop::Halted);
    assert_eq!(s.snapshots.len(), 1);
    assert_eq!(
        s.snapshots[0],
        "{\n    memory: 0: {0000000[1]}\n    code: 1: debug\n    input: {0000000[0]}\n    output: {0000000[0]}\n}"
    );
}

#[test]
fn input_bits_arrive_least_significant_first() {
    // read one bit of 0x02 (low bit 0), write it, output it; then a second
    // read gets the next bit (1)
    let p = resolved(vec![
        Stmt::Io(IoOp::In),
        Stmt::Io(IoOp::In),
    ]);
    let mut s = State::new(p.instructions, vec![0x02]);
    let stop = s.run(10);
    assert_eq!(stop, RunStop::Halted);
    // after the second read the head holds bit 1 of 0x02, which is set
    assert!(s.mem.read());
}
