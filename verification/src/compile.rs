//! The bit-machine compiler: synthesizes, for each instruction, a block of
//! tag-system production rules that emulates it, and merges the blocks into
//! one tag program with deletion number two.

use vstd::prelude::*;
use crate::mach::{Insn, InsnOffset, IoOp, Program, SeekOp, WriteOp};
use crate::tag::{RuleModel, RuleStyle, Rules, Series, Symbol, TagErr};
use crate::tag::{rules_model, series_model, unique_keys};
use crate::text::{dec_spec, fmt_usize};

verus! {

/// The name of the symbol for role `name` at instruction position `pos`:
/// the role, an underscore, and the position in decimal.
pub open spec fn forge_spec(pos: nat, name: Seq<char>) -> Seq<char> {
    name + seq!['_'] + dec_spec(pos)
}

/// Forges the namespaced symbol of role `name` at position `pos`.
pub fn forge_symbol(pos: InsnOffset, name: &str) -> (r: Symbol)
    ensures
        r@ == forge_spec(pos as nat, name@),
{
    let mut symbol: String = name.to_owned();
    symbol.append("_");
    let num = fmt_usize(pos);
    symbol.append(num.as_str());
    proof {
        reveal_strlit("_");
        assert("_"@ =~= seq!['_']);
        assert(symbol@ =~= forge_spec(pos as nat, name@));
    }
    symbol
}

/// A pure rule appending the same symbol twice.
fn pure_pair(s: &Symbol) -> (r: RuleStyle)
    ensures
        r@ == RuleModel::Pure(seq![s@, s@]),
{
    let body = RuleStyle::Pure(vec![s.clone(), s.clone()]);
    proof {
        assert(body@ =~~= RuleModel::Pure(seq![s@, s@]));
    }
    body
}

/// The rule block of a write at `pos`: tape counters pass through doubled
/// and re-halved, and both head states collapse onto the written bit's
/// state at `pos + 1`.
pub open spec fn mk_write_spec(pos: nat, op: WriteOp) -> Seq<(Seq<char>, RuleModel)> {
    let x = forge_spec(pos, "x"@);
    let xn = forge_spec(pos + 1, "x"@);
    let y = forge_spec(pos, "y"@);
    let yn = forge_spec(pos + 1, "y"@);
    let s0 = forge_spec(pos, "s0"@);
    let s1 = forge_spec(pos, "s1"@);
    let s0n = forge_spec(pos + 1, "s0"@);
    let s1n = forge_spec(pos + 1, "s1"@);
    seq![
        (x, RuleModel::Pure(seq![xn, xn])),
        (y, RuleModel::Pure(seq![yn, yn])),
    ] + (match op {
        WriteOp::SetBit => seq![
            (s0, RuleModel::Pure(seq![s1n, s1n])),
            (s1, RuleModel::Pure(seq![s1n, s1n])),
        ],
        WriteOp::UnsetBit => seq![
            (s0, RuleModel::Pure(seq![s0n, s0n])),
            (s1, RuleModel::Pure(seq![s0n, s0n])),
        ],
    })
}

/// The rule block of an io instruction at `pos`: tape counters pass
/// through; on input both head states become an input-selected pair, on
/// output each head state re-emits itself and emits its bit.
pub open spec fn mk_io_spec(pos: nat, rw: IoOp) -> Seq<(Seq<char>, RuleModel)> {
    let x = forge_spec(pos, "x"@);
    let xn = forge_spec(pos + 1, "x"@);
    let y = forge_spec(pos, "y"@);
    let yn = forge_spec(pos + 1, "y"@);
    let s0 = forge_spec(pos, "s0"@);
    let s1 = forge_spec(pos, "s1"@);
    let s0n = forge_spec(pos + 1, "s0"@);
    let s1n = forge_spec(pos + 1, "s1"@);
    seq![
        (x, RuleModel::Pure(seq![xn, xn])),
        (y, RuleModel::Pure(seq![yn, yn])),
    ] + (match rw {
        IoOp::In => seq![
            (s0, RuleModel::Input(seq![s0n, s0n], seq![s1n, s1n])),
            (s1, RuleModel::Input(seq![s0n, s0n], seq![s1n, s1n])),
        ],
        IoOp::Out => seq![
            (s0, RuleModel::Output(seq![s0n, s0n], false)),
            (s1, RuleModel::Output(seq![s1n, s1n], true)),
        ],
    })
}

/// The rule block of a seek at `pos`: the counter of the moving direction
/// is halved and the opposite counter doubled; a parity-sensing pair of
/// productions (odd emits nothing, even emits a padding symbol) recovers
/// the shifted-over bit, which becomes the head state at `pos + 1`.
pub open spec fn mk_seek_spec(pos: nat, direction: SeekOp) -> Seq<(Seq<char>, RuleModel)> {
    let blank = forge_spec(pos, "_"@);
    let x = forge_spec(pos, "x"@);
    let xn = forge_spec(pos + 1, "x"@);
    let xa = forge_spec(pos, "xa"@);
    let xb = forge_spec(pos, "xb"@);
    let xc = forge_spec(pos, "xc"@);
    let s0 = forge_spec(pos, "s0"@);
    let s1 = forge_spec(pos, "s1"@);
    let net = forge_spec(pos, "net"@);
    let test = forge_spec(pos, "test"@);
    let s0b = forge_spec(pos, "s0b"@);
    let s1b = forge_spec(pos, "s1b"@);
    let even_net = forge_spec(pos, "even_net"@);
    let odd_net = forge_spec(pos, "odd_net"@);
    let pad = forge_spec(pos, "pad"@);
    let s0c = forge_spec(pos, "s0c"@);
    let s1c = forge_spec(pos, "s1c"@);
    let s0n = forge_spec(pos + 1, "s0"@);
    let s1n = forge_spec(pos + 1, "s1"@);
    let y = forge_spec(pos, "y"@);
    let ya = forge_spec(pos, "ya"@);
    let yb = forge_spec(pos, "yb"@);
    let yc = forge_spec(pos, "yc"@);
    let yn = forge_spec(pos + 1, "y"@);
    (match direction {
        SeekOp::Right => seq![
            (x, RuleModel::Pure(seq![xa, xa, xa, xa])),
            (s0, RuleModel::Pure(seq![net, blank, test])),
            (s1, RuleModel::Pure(seq![xa, xa, net, blank, test])),
            (y, RuleModel::Pure(seq![ya])),
        ],
        SeekOp::Left => seq![
            (x, RuleModel::Pure(seq![xa, xa])),
            (s0, RuleModel::Pure(seq![net, blank, test])),
            (s1, RuleModel::Pure(seq![net, blank, test, ya, ya])),
            (y, RuleModel::Pure(seq![ya, ya, ya, ya])),
        ],
    }) + (match direction {
        SeekOp::Right => seq![(xa, RuleModel::Pure(seq![xb, xb]))],
        SeekOp::Left => seq![(xa, RuleModel::Pure(seq![xb]))],
    }) + seq![
        (net, RuleModel::Pure(seq![odd_net, even_net])),
        (test, RuleModel::Pure(seq![s1b, s0b])),
        (ya, RuleModel::Pure(seq![yb, yb])),
        (xb, RuleModel::Pure(seq![xc, xc])),
        (s0b, RuleModel::Pure(seq![s0c, s0c])),
        (s1b, RuleModel::Pure(seq![s1c, s1c])),
        (odd_net, RuleModel::Pure(Seq::empty())),
        (even_net, RuleModel::Pure(seq![pad])),
        (yb, RuleModel::Pure(seq![yc, yc])),
        (xc, RuleModel::Pure(seq![xn, xn])),
        (s0c, RuleModel::Pure(seq![s0n, s0n])),
        (s1c, RuleModel::Pure(seq![s1n, s1n])),
        (yc, RuleModel::Pure(seq![yn, yn])),
    ]
}

/// The rule block of a jump at `pos`: the live head-state family routes
/// every counter to its family at the taken target; the other branch's
/// families are produced with zero multiplicity.
pub open spec fn mk_jmp_spec(pos: nat, br_t: nat, br_f: nat) -> Seq<(Seq<char>, RuleModel)> {
    let blank = forge_spec(pos, "_"@);
    let x = forge_spec(pos, "x"@);
    let xa = forge_spec(pos, "xa"@);
    let xb_t = forge_spec(pos, "xb_t"@);
    let xb_f = forge_spec(pos, "xb_f"@);
    let x_t = forge_spec(br_t, "x"@);
    let x_f = forge_spec(br_f, "x"@);
    let s0 = forge_spec(pos, "s0"@);
    let s1 = forge_spec(pos, "s1"@);
    let net = forge_spec(pos, "net"@);
    let shift = forge_spec(pos, "shift"@);
    let s1a_t = forge_spec(pos, "s1a_t"@);
    let s0b_f = forge_spec(pos, "s0b_f"@);
    let s1b_t = forge_spec(pos, "s1b_t"@);
    let s0_f = forge_spec(br_f, "s0"@);
    let s1_t = forge_spec(br_t, "s1"@);
    let y = forge_spec(pos, "y"@);
    let ya_t = forge_spec(pos, "ya_t"@);
    let ya_f = forge_spec(pos, "ya_f"@);
    let yb_t = forge_spec(pos, "yb_t"@);
    let yb_f = forge_spec(pos, "yb_f"@);
    let y_t = forge_spec(br_t, "y"@);
    let y_f = forge_spec(br_f, "y"@);
    seq![
        (x, RuleModel::Pure(seq![xa, xa])),
        (s0, RuleModel::Pure(seq![net, blank, shift])),
        (s1, RuleModel::Pure(seq![s1a_t, s1a_t])),
        (y, RuleModel::Pure(seq![ya_t, ya_f])),
        (xa, RuleModel::Pure(seq![xb_t, xb_f])),
        (s1a_t, RuleModel::Pure(seq![s1b_t, s1b_t])),
        (ya_t, RuleModel::Pure(seq![yb_t, yb_t])),
        (net, RuleModel::Pure(seq![blank])),
        (shift, RuleModel::Pure(seq![s0b_f, s0b_f])),
        (ya_f, RuleModel::Pure(seq![yb_f, yb_f])),
        (xb_t, RuleModel::Pure(seq![x_t, x_t])),
        (s1b_t, RuleModel::Pure(seq![s1_t, s1_t])),
        (yb_t, RuleModel::Pure(seq![y_t, y_t])),
        (xb_f, RuleModel::Pure(seq![x_f, x_f])),
        (s0b_f, RuleModel::Pure(seq![s0_f, s0_f])),
        (yb_f, RuleModel::Pure(seq![y_f, y_f])),
    ]
}

/// The rule block of a debug marker at `pos`: a pure two-phase identity
/// relay for every family.
pub open spec fn mk_debug_spec(pos: nat) -> Seq<(Seq<char>, RuleModel)> {
    let x = forge_spec(pos, "x"@);
    let x_dbg = forge_spec(pos, "x_dbg"@);
    let xn = forge_spec(pos + 1, "x"@);
    let s0 = forge_spec(pos, "s0"@);
    let s0_dbg = forge_spec(pos, "s0_dbg"@);
    let s0n = forge_spec(pos + 1, "s0"@);
    let s1 = forge_spec(pos, "s1"@);
    let s1_dbg = forge_spec(pos, "s1_dbg"@);
    let s1n = forge_spec(pos + 1, "s1"@);
    let y = forge_spec(pos, "y"@);
    let y_dbg = forge_spec(pos, "y_dbg"@);
    let yn = forge_spec(pos + 1, "y"@);
    seq![
        (x, RuleModel::Pure(seq![x_dbg, x_dbg])),
        (s0, RuleModel::Pure(seq![s0_dbg, s0_dbg])),
        (s1, RuleModel::Pure(seq![s1_dbg, s1_dbg])),
        (y, RuleModel::Pure(seq![y_dbg, y_dbg])),
        (x_dbg, RuleModel::Pure(seq![xn, xn])),
        (s0_dbg, RuleModel::Pure(seq![s0n, s0n])),
        (s1_dbg, RuleModel::Pure(seq![s1n, s1n])),
        (y_dbg, RuleModel::Pure(seq![yn, yn])),
    ]
}

impl Program {
    /// Emits the rules of a write instruction.
    pub fn mk_write(pos: InsnOffset, op: &WriteOp) -> (r: Rules)
        requires
            pos < usize::MAX,
        ensures
            rules_model(r@) == mk_write_spec(pos as nat, *op),
    {
        let mut rules: Rules = Vec::new();

        let x_start = forge_symbol(pos, "x");
        let x = forge_symbol(pos + 1, "x");
        rules.push((x_start, pure_pair(&x)));

        let y_start = forge_symbol(pos, "y");
        let y = forge_symbol(pos + 1, "y");
        rules.push((y_start, pure_pair(&y)));

        let s1_start = forge_symbol(pos, "s1");
        let s1_next = forge_symbol(pos + 1, "s1");
        let s0_start = forge_symbol(pos, "s0");
        let s0_next = forge_symbol(pos + 1, "s0");

        match op {
            WriteOp::SetBit => {
                rules.push((s0_start, pure_pair(&s1_next)));
                rules.push((s1_start, pure_pair(&s1_next)));
            },
            WriteOp::UnsetBit => {
                rules.push((s0_start, pure_pair(&s0_next)));
                rules.push((s1_start, pure_pair(&s0_next)));
            },
        }

        proof {
            assert(rules_model(rules@) =~~= mk_write_spec(pos as nat, *op));
        }
        rules
    }

    /// Emits the rules of an io instruction.
    pub fn mk_io(pos: InsnOffset, rw: &IoOp) -> (r: Rules)
        requires
            pos < usize::MAX,
        ensures
            rules_model(r@) == mk_io_spec(pos as nat, *rw),
    {
        let mut rules: Rules = Vec::new();

        let x = forge_symbol(pos, "x");
        let x_next = forge_symbol(pos + 1, "x");
        rules.push((x, pure_pair(&x_next)));

        let y = forge_symbol(pos, "y");
        let y_next = forge_symbol(pos + 1, "y");
        rules.push((y, pure_pair(&y_next)));

        let s1 = forge_symbol(pos, "s1");
        let s1_next = forge_symbol(pos + 1, "s1");
        let s0 = forge_symbol(pos, "s0");
        let s0_next = forge_symbol(pos + 1, "s0");

        match rw {
            IoOp::In => {
                let body0 = RuleStyle::Input(
                    vec![s0_next.clone(), s0_next.clone()],
                    vec![s1_next.clone(), s1_next.clone()],
                );
                let body1 = RuleStyle::Input(
                    vec![s0_next.clone(), s0_next],
                    vec![s1_next.clone(), s1_next],
                );
                rules.push((s0, body0));
                rules.push((s1, body1));
            },
            IoOp::Out => {
                let body0 = RuleStyle::Output(vec![s0_next.clone(), s0_next], false);
                let body1 = RuleStyle::Output(vec![s1_next.clone(), s1_next], true);
                rules.push((s0, body0));
                rules.push((s1, body1));
            },
        }

        proof {
            assert(rules_model(rules@) =~~= mk_io_spec(pos as nat, *rw));
        }
        rules
    }

    /// Emits the rules of a seek instruction.
    pub fn mk_seek(pos: InsnOffset, direction: &SeekOp) -> (r: Rules)
        requires
            pos < usize::MAX,
        ensures
            rules_model(r@) == mk_seek_spec(pos as nat, *direction),
    {
        let mut rules: Rules = Vec::new();

        let blank = forge_symbol(pos, "_");
        let x = forge_symbol(pos, "x");
        let x_next = forge_symbol(pos + 1, "x");
        let xa = forge_symbol(pos, "xa");
        let xb = forge_symbol(pos, "xb");
        let xc = forge_symbol(pos, "xc");
        let s0 = forge_symbol(pos, "s0");
        let s1 = forge_symbol(pos, "s1");
        let net = forge_symbol(pos, "net");
        let test = forge_symbol(pos, "test");
        let s0b = forge_symbol(pos, "s0b");
        let s1b = forge_symbol(pos, "s1b");
        let even_net = forge_symbol(pos, "even_net");
        let odd_net = forge_symbol(pos, "odd_net");
        let pad = forge_symbol(pos, "pad");
        let s0c = forge_symbol(pos, "s0c");
        let s1c = forge_symbol(pos, "s1c");
        let s0_next = forge_symbol(pos + 1, "s0");
        let s1_next = forge_symbol(pos + 1, "s1");
        let y = forge_symbol(pos, "y");
        let ya = forge_symbol(pos, "ya");
        let yb = forge_symbol(pos, "yb");
        let yc = forge_symbol(pos, "yc");
        let y_next = forge_symbol(pos + 1, "y");

        match direction {
            SeekOp::Right => {
                // Double the moving-side counter, keep the head families in
                // step, and halve the opposite counter.
                let x_body = RuleStyle::Pure(
                    vec![xa.clone(), xa.clone(), xa.clone(), xa.clone()],
                );
                rules.push((x.clone(), x_body));
                rules.push(
                    (s0.clone(), RuleStyle::Pure(vec![net.clone(), blank.clone(), test.clone()])),
                );
                rules.push(
                    (
                        s1.clone(),
                        RuleStyle::Pure(
                            vec![xa.clone(), xa.clone(), net.clone(), blank.clone(), test.clone()],
                        ),
                    ),
                );
                rules.push((y.clone(), RuleStyle::Pure(vec![ya.clone()])));
                rules.push((xa.clone(), pure_pair(&xb)));
            },
            SeekOp::Left => {
                rules.push((x.clone(), pure_pair(&xa)));
                rules.push(
                    (s0.clone(), RuleStyle::Pure(vec![net.clone(), blank.clone(), test.clone()])),
                );
                rules.push(
                    (
                        s1.clone(),
                        RuleStyle::Pure(
                            vec![net.clone(), blank.clone(), test.clone(), ya.clone(), ya.clone()],
                        ),
                    ),
                );
                rules.push(
                    (
                        y.clone(),
                        RuleStyle::Pure(vec![ya.clone(), ya.clone(), ya.clone(), ya.clone()]),
                    ),
                );
                rules.push((xa.clone(), RuleStyle::Pure(vec![xb.clone()])));
            },
        }

        // Cast the parity net, sense the parity, and relay every family to
        // its successor at the next position.
        rules.push((net, RuleStyle::Pure(vec![odd_net.clone(), even_net.clone()])));
        rules.push((test, RuleStyle::Pure(vec![s1b.clone(), s0b.clone()])));
        rules.push((ya, pure_pair(&yb)));
        rules.push((xb, pure_pair(&xc)));
        rules.push((s0b, pure_pair(&s0c)));
        rules.push((s1b, pure_pair(&s1c)));
        rules.push((odd_net, RuleStyle::Pure(Vec::new())));
        rules.push((even_net, RuleStyle::Pure(vec![pad])));
        rules.push((yb, pure_pair(&yc)));
        rules.push((xc, pure_pair(&x_next)));
        rules.push((s0c, pure_pair(&s0_next)));
        rules.push((s1c, pure_pair(&s1_next)));
        rules.push((yc, pure_pair(&y_next)));

        proof {
            assert(rules_model(rules@) =~~= mk_seek_spec(pos as nat, *direction));
        }
        rules
    }

    /// Emits the rules of a jump instruction.
    pub fn mk_jmp(pos: InsnOffset, br_t: &InsnOffset, br_f: &InsnOffset) -> (r: Rules)
        ensures
            rules_model(r@) == mk_jmp_spec(pos as nat, *br_t as nat, *br_f as nat),
    {
        let mut rules: Rules = Vec::new();

        let x = forge_symbol(pos, "x");
        let xa = forge_symbol(pos, "xa");
        let xb_t = forge_symbol(pos, "xb_t");
        let xb_f = forge_symbol(pos, "xb_f");
        let x_t = forge_symbol(*br_t, "x");
        let x_f = forge_symbol(*br_f, "x");

        let s0 = forge_symbol(pos, "s0");
        let s1 = forge_symbol(pos, "s1");
        let net = forge_symbol(pos, "net");
        let blank = forge_symbol(pos, "_");
        let shift = forge_symbol(pos, "shift");
        let s1a_t = forge_symbol(pos, "s1a_t");
        let s0b_f = forge_symbol(pos, "s0b_f");
        let s1b_t = forge_symbol(pos, "s1b_t");
        let s0_f = forge_symbol(*br_f, "s0");
        let s1_t = forge_symbol(*br_t, "s1");

        let y = forge_symbol(pos, "y");
        let ya_t = forge_symbol(pos, "ya_t");
        let ya_f = forge_symbol(pos, "ya_f");
        let yb_t = forge_symbol(pos, "yb_t");
        let yb_f = forge_symbol(pos, "yb_f");
        let y_t = forge_symbol(*br_t, "y");
        let y_f = forge_symbol(*br_f, "y");

        // The tape counters keep step for one phase so the head's parity
        // flip can reach them.
        rules.push((x, pure_pair(&xa)));
        rules.push((s0, RuleStyle::Pure(vec![net.clone(), blank.clone(), shift.clone()])));
        rules.push((s1, pure_pair(&s1a_t)));
        rules.push((y, RuleStyle::Pure(vec![ya_t.clone(), ya_f.clone()])));

        rules.push((xa, RuleStyle::Pure(vec![xb_t.clone(), xb_f.clone()])));
        rules.push((s1a_t, pure_pair(&s1b_t)));
        rules.push((ya_t, pure_pair(&yb_t)));
        rules.push((net, RuleStyle::Pure(vec![blank])));
        rules.push((shift, pure_pair(&s0b_f)));
        rules.push((ya_f, pure_pair(&yb_f)));

        rules.push((xb_t, pure_pair(&x_t)));
        rules.push((s1b_t, pure_pair(&s1_t)));
        rules.push((yb_t, pure_pair(&y_t)));
        rules.push((xb_f, pure_pair(&x_f)));
        rules.push((s0b_f, pure_pair(&s0_f)));
        rules.push((yb_f, pure_pair(&y_f)));

        proof {
            assert(rules_model(rules@) =~~= mk_jmp_spec(pos as nat, *br_t as nat, *br_f as nat));
        }
        rules
    }

    /// Emits the rules of a debug marker.
    pub fn mk_debug(pos: InsnOffset) -> (r: Rules)
        requires
            pos < usize::MAX,
        ensures
            rules_model(r@) == mk_debug_spec(pos as nat),
    {
        let mut rules: Rules = Vec::new();

        let x = forge_symbol(pos, "x");
        let x_dbg = forge_symbol(pos, "x_dbg");
        let x_next = forge_symbol(pos + 1, "x");

        let s0 = forge_symbol(pos, "s0");
        let s0_dbg = forge_symbol(pos, "s0_dbg");
        let s0_next = forge_symbol(pos + 1, "s0");
        let s1 = forge_symbol(pos, "s1");
        let s1_dbg = forge_symbol(pos, "s1_dbg");
        let s1_next = forge_symbol(pos + 1, "s1");

        let y = forge_symbol(pos, "y");
        let y_dbg = forge_symbol(pos, "y_dbg");
        let y_next = forge_symbol(pos + 1, "y");

        rules.push((x, pure_pair(&x_dbg)));
        rules.push((s0, pure_pair(&s0_dbg)));
        rules.push((s1, pure_pair(&s1_dbg)));
        rules.push((y, pure_pair(&y_dbg)));

        rules.push((x_dbg, pure_pair(&x_next)));
        rules.push((s0_dbg, pure_pair(&s0_next)));
        rules.push((s1_dbg, pure_pair(&s1_next)));
        rules.push((y_dbg, pure_pair(&y_next)));

        proof {
            assert(rules_model(rules@) =~~= mk_debug_spec(pos as nat));
        }
        rules
    }

    /// Compiles the whole instruction list: one rule block per instruction,
    /// merged in order, with deletion number two and an initial queue of two
    /// copies of the zero-head symbol at position zero. It always succeeds:
    /// the per-position namespacing keeps the merged keys distinct.
    pub fn compile(&self) -> (r: Result<crate::tag::Program, TagErr>)
        ensures
            r is Ok,
            r matches Ok(p) ==> {
                &&& p@.deletion_number == 2
                &&& p@.rules == compile_rules_upto(
                    self.instructions@,
                    self.instructions@.len() as int,
                )
                &&& p@.queue == compile_queue_spec()
                &&& p.wf()
            },
    {
        proof {
            lemma_compiled_keys_unique(self.instructions@);
        }
        let mut rules: Rules = Vec::new();
        let n = self.instructions.len();
        let mut i: usize = 0;
        while i < n
            invariant
                n == self.instructions@.len(),
                i <= n,
                rules_model(rules@) == compile_rules_upto(self.instructions@, i as int),
            decreases n - i,
        {
            let ghost before = rules_model(rules@);
            let mut translated = match &self.instructions[i] {
                Insn::Write(value) => Self::mk_write(i, value),
                Insn::Seek(direction) => Self::mk_seek(i, direction),
                Insn::Io(rw) => Self::mk_io(i, rw),
                Insn::Jmp(branch_t, branch_f) => Self::mk_jmp(i, branch_t, branch_f),
                Insn::Debug => Self::mk_debug(i),
            };
            let ghost block = rules_model(translated@);
            rules.append(&mut translated);
            proof {
                assert(rules_model(rules@) =~= before + block);
                assert(block == insn_rules_spec(i as nat, self.instructions@[i as int]));
            }
            i += 1;
        }

        let default_queue: Series = vec![forge_symbol(0, "s0"), forge_symbol(0, "s0")];
        proof {
            assert(series_model(default_queue@) =~= compile_queue_spec());
        }
        match crate::tag::Program::from_components(2, rules, default_queue) {
            Ok(p) => Ok(p),
            Err(e) => Err(e),
        }
    }
}

/// The rule block of one instruction at position `pos`.
pub open spec fn insn_rules_spec(pos: nat, insn: Insn) -> Seq<(Seq<char>, RuleModel)> {
    match insn {
        Insn::Write(op) => mk_write_spec(pos, op),
        Insn::Seek(d) => mk_seek_spec(pos, d),
        Insn::Io(rw) => mk_io_spec(pos, rw),
        Insn::Jmp(t, f) => mk_jmp_spec(pos, t as nat, f as nat),
        Insn::Debug => mk_debug_spec(pos),
    }
}

/// The merged rule blocks of the first `i` instructions.
pub open spec fn compile_rules_upto(insns: Seq<Insn>, i: int) -> Seq<(Seq<char>, RuleModel)>
    decreases i,
{
    if i <= 0 {
        Seq::empty()
    } else {
        compile_rules_upto(insns, i - 1) + insn_rules_spec((i - 1) as nat, insns[i - 1])
    }
}

/// The initial queue of every compiled program: two copies of the zero-head
/// symbol at position zero.
pub open spec fn compile_queue_spec() -> Seq<Seq<char>> {
    seq![forge_spec(0, "s0"@), forge_spec(0, "s0"@)]
}

/// Whether `s` is a symbol forged at position `pos`.
pub open spec fn tagged(pos: nat, s: Seq<char>) -> bool {
    exists|name: Seq<char>| s == #[trigger] forge_spec(pos, name)
}

/// Forged names are position-recoverable: the underscore before the
/// position's digits is the last one, since the digits hold none.
pub proof fn lemma_forge_inj(p1: nat, n1: Seq<char>, p2: nat, n2: Seq<char>)
    requires
        forge_spec(p1, n1) == forge_spec(p2, n2),
    ensures
        n1 == n2,
        p1 == p2,
{
    let d1 = crate::text::dec_spec(p1);
    let d2 = crate::text::dec_spec(p2);
    crate::text::lemma_dec_digits(p1);
    crate::text::lemma_dec_digits(p2);
    let s = forge_spec(p1, n1);
    let l1 = n1.len() as int;
    let l2 = n2.len() as int;
    assert(s.len() == l1 + 1 + d1.len());
    assert(forge_spec(p2, n2).len() == l2 + 1 + d2.len());
    if l1 < l2 {
        assert(forge_spec(p2, n2)[l2] == '_');
        assert(s[l2] == d1[l2 - l1 - 1]);
        assert(crate::text::is_digit_char(d1[l2 - l1 - 1]));
        assert(false);
    }
    if l2 < l1 {
        assert(s[l1] == '_');
        assert(forge_spec(p2, n2)[l1] == d2[l1 - l2 - 1]);
        assert(crate::text::is_digit_char(d2[l1 - l2 - 1]));
        assert(false);
    }
    assert(n1 =~= n2) by {
        assert forall|i: int| 0 <= i < l1 implies n1[i] == n2[i] by {
            assert(s[i] == n1[i]);
            assert(forge_spec(p2, n2)[i] == n2[i]);
        }
    }
    assert(d1 =~= d2) by {
        assert forall|i: int| 0 <= i < d1.len() implies d1[i] == d2[i] by {
            assert(s[l1 + 1 + i] == d1[i]);
            assert(forge_spec(p2, n2)[l2 + 1 + i] == d2[i]);
        }
    }
    crate::text::lemma_dec_inj(p1, p2);
}

/// The start-symbol roles of one instruction's block, in emission order.
pub open spec fn block_roles(insn: Insn) -> Seq<Seq<char>> {
    match insn {
        Insn::Write(_) => seq!["x"@, "y"@, "s0"@, "s1"@],
        Insn::Io(_) => seq!["x"@, "y"@, "s0"@, "s1"@],
        Insn::Debug => seq![
            "x"@,
            "s0"@,
            "s1"@,
            "y"@,
            "x_dbg"@,
            "s0_dbg"@,
            "s1_dbg"@,
            "y_dbg"@,
        ],
        Insn::Seek(_) => seq![
            "x"@,
            "s0"@,
            "s1"@,
            "y"@,
            "xa"@,
            "net"@,
            "test"@,
            "ya"@,
            "xb"@,
            "s0b"@,
            "s1b"@,
            "odd_net"@,
            "even_net"@,
            "yb"@,
            "xc"@,
            "s0c"@,
            "s1c"@,
            "yc"@,
        ],
        Insn::Jmp(_, _) => seq![
            "x"@,
            "s0"@,
            "s1"@,
            "y"@,
            "xa"@,
            "s1a_t"@,
            "ya_t"@,
            "net"@,
            "shift"@,
            "ya_f"@,
            "xb_t"@,
            "s1b_t"@,
            "yb_t"@,
            "xb_f"@,
            "s0b_f"@,
            "yb_f"@,
        ],
    }
}

// The per-variant role lists are pairwise distinct. The solver refutes an
// equality of two string literals only when their lengths and characters
// stand as ground terms, so each lemma first pins every role's length and
// characters, states each pair, and then walks the indices.
#[verifier::spinoff_prover]
#[verifier::rlimit(100)]
proof fn lemma_write_roles_distinct(insn: Insn)
    requires
        insn is Write,
    ensures
        forall|i: int, j: int|
            0 <= i < j < block_roles(insn).len() ==> (#[trigger] block_roles(insn)[i])
                != (#[trigger] block_roles(insn)[j]),
{
    reveal_strlit("x");
    reveal_strlit("y");
    reveal_strlit("s0");
    reveal_strlit("s1");
    assert("x"@[0] == 'x' && "x"@.len() == 1);
    assert("y"@[0] == 'y' && "y"@.len() == 1);
    assert("s0"@[0] == 's' && "s0"@[1] == '0' && "s0"@.len() == 2);
    assert("s1"@[0] == 's' && "s1"@[1] == '1' && "s1"@.len() == 2);
    assert("x"@ != "y"@);
    assert("x"@ != "s0"@);
    assert("x"@ != "s1"@);
    assert("y"@ != "s0"@);
    assert("y"@ != "s1"@);
    assert("s0"@ != "s1"@);
    assert forall|i: int, j: int|
        0 <= i < j < block_roles(insn).len() implies (#[trigger] block_roles(insn)[i])
        != (#[trigger] block_roles(insn)[j]) by {
        if i == 0 {
            assert(block_roles(insn)[i] == "x"@);
        } else if i == 1 {
            assert(block_roles(insn)[i] == "y"@);
        } else if i == 2 {
            assert(block_roles(insn)[i] == "s0"@);
        } else if i == 3 {
            assert(block_roles(insn)[i] == "s1"@);
        }
        if j == 0 {
            assert(block_roles(insn)[j] == "x"@);
        } else if j == 1 {
            assert(block_roles(insn)[j] == "y"@);
        } else if j == 2 {
            assert(block_roles(insn)[j] == "s0"@);
        } else if j == 3 {
            assert(block_roles(insn)[j] == "s1"@);
        }
    }
}

#[verifier::spinoff_prover]
#[verifier::rlimit(100)]
proof fn lemma_io_roles_distinct(insn: Insn)
    requires
        insn is Io,
    ensures
        forall|i: int, j: int|
            0 <= i < j < block_roles(insn).len() ==> (#[trigger] block_roles(insn)[i])
                != (#[trigger] block_roles(insn)[j]),
{
    reveal_strlit("x");
    reveal_strlit("y");
    reveal_strlit("s0");
    reveal_strlit("s1");
    assert("x"@[0] == 'x' && "x"@.len() == 1);
    assert("y"@[0] == 'y' && "y"@.len() == 1);
    assert("s0"@[0] == 's' && "s0"@[1] == '0' && "s0"@.len() == 2);
    assert("s1"@[0] == 's' && "s1"@[1] == '1' && "s1"@.len() == 2);
    assert("x"@ != "y"@);
    assert("x"@ != "s0"@);
    assert("x"@ != "s1"@);
    assert("y"@ != "s0"@);
    assert("y"@ != "s1"@);
    assert("s0"@ != "s1"@);
    assert forall|i: int, j: int|
        0 <= i < j < block_roles(insn).len() implies (#[trigger] block_roles(insn)[i])
        != (#[trigger] block_roles(insn)[j]) by {
        if i == 0 {
            assert(block_roles(insn)[i] == "x"@);
        } else if i == 1 {
            assert(block_roles(insn)[i] == "y"@);
        } else if i == 2 {
            assert(block_roles(insn)[i] == "s0"@);
        } else if i == 3 {
            assert(block_roles(insn)[i] == "s1"@);
        }
        if j == 0 {
            assert(block_roles(insn)[j] == "x"@);
        } else if j == 1 {
            assert(block_roles(insn)[j] == "y"@);
        } else if j == 2 {
            assert(block_roles(insn)[j] == "s0"@);
        } else if j == 3 {
            assert(block_roles(insn)[j] == "s1"@);
        }
    }
}

#[verifier::spinoff_prover]
#[verifier::rlimit(100)]
proof fn lemma_debug_roles_distinct(insn: Insn)
    requires
        insn is Debug,
    ensures
        forall|i: int, j: int|
            0 <= i < j < block_roles(insn).len() ==> (#[trigger] block_roles(insn)[i])
                != (#[trigger] block_roles(insn)[j]),
{
    reveal_strlit("x");
    reveal_strlit("s0");
    reveal_strlit("s1");
    reveal_strlit("y");
    reveal_strlit("x_dbg");
    reveal_strlit("s0_dbg");
    reveal_strlit("s1_dbg");
    reveal_strlit("y_dbg");
    assert("x"@[0] == 'x' && "x"@.len() == 1);
    assert("s0"@[0] == 's' && "s0"@[1] == '0' && "s0"@.len() == 2);
    assert("s1"@[0] == 's' && "s1"@[1] == '1' && "s1"@.len() == 2);
    assert("y"@[0] == 'y' && "y"@.len() == 1);
    assert("x_dbg"@[0] == 'x' && "x_dbg"@[1] == '_' && "x_dbg"@[2] == 'd' && "x_dbg"@[3] == 'b' && "x_dbg"@[4] == 'g' && "x_dbg"@.len() == 5);
    assert("s0_dbg"@[0] == 's' && "s0_dbg"@[1] == '0' && "s0_dbg"@[2] == '_' && "s0_dbg"@[3] == 'd' && "s0_dbg"@[4] == 'b' && "s0_dbg"@[5] == 'g' && "s0_dbg"@.len() == 6);
    assert("s1_dbg"@[0] == 's' && "s1_dbg"@[1] == '1' && "s1_dbg"@[2] == '_' && "s1_dbg"@[3] == 'd' && "s1_dbg"@[4] == 'b' && "s1_dbg"@[5] == 'g' && "s1_dbg"@.len() == 6);
    assert("y_dbg"@[0] == 'y' && "y_dbg"@[1] == '_' && "y_dbg"@[2] == 'd' && "y_dbg"@[3] == 'b' && "y_dbg"@[4] == 'g' && "y_dbg"@.len() == 5);
    assert("x"@ != "s0"@);
    assert("x"@ != "s1"@);
    assert("x"@ != "y"@);
    assert("x"@ != "x_dbg"@);
    assert("x"@ != "s0_dbg"@);
    assert("x"@ != "s1_dbg"@);
    assert("x"@ != "y_dbg"@);
    assert("s0"@ != "s1"@);
    assert("s0"@ != "y"@);
    assert("s0"@ != "x_dbg"@);
    assert("s0"@ != "s0_dbg"@);
    assert("s0"@ != "s1_dbg"@);
    assert("s0"@ != "y_dbg"@);
    assert("s1"@ != "y"@);
    assert("s1"@ != "x_dbg"@);
    assert("s1"@ != "s0_dbg"@);
    assert("s1"@ != "s1_dbg"@);
    assert("s1"@ != "y_dbg"@);
    assert("y"@ != "x_dbg"@);
    assert("y"@ != "s0_dbg"@);
    assert("y"@ != "s1_dbg"@);
    assert("y"@ != "y_dbg"@);
    assert("x_dbg"@ != "s0_dbg"@);
    assert("x_dbg"@ != "s1_dbg"@);
    assert("x_dbg"@ != "y_dbg"@);
    assert("s0_dbg"@ != "s1_dbg"@);
    assert("s0_dbg"@ != "y_dbg"@);
    assert("s1_dbg"@ != "y_dbg"@);
    assert forall|i: int, j: int|
        0 <= i < j < block_roles(insn).len() implies (#[trigger] block_roles(insn)[i])
        != (#[trigger] block_roles(insn)[j]) by {
        if i == 0 {
            assert(block_roles(insn)[i] == "x"@);
        } else if i == 1 {
            assert(block_roles(insn)[i] == "s0"@);
        } else if i == 2 {
            assert(block_roles(insn)[i] == "s1"@);
        } else if i == 3 {
            assert(block_roles(insn)[i] == "y"@);
        } else if i == 4 {
            assert(block_roles(insn)[i] == "x_dbg"@);
        } else if i == 5 {
            assert(block_roles(insn)[i] == "s0_dbg"@);
        } else if i == 6 {
            assert(block_roles(insn)[i] == "s1_dbg"@);
        } else if i == 7 {
            assert(block_roles(insn)[i] == "y_dbg"@);
        }
        if j == 0 {
            assert(block_roles(insn)[j] == "x"@);
        } else if j == 1 {
            assert(block_roles(insn)[j] == "s0"@);
        } else if j == 2 {
            assert(block_roles(insn)[j] == "s1"@);
        } else if j == 3 {
            assert(block_roles(insn)[j] == "y"@);
        } else if j == 4 {
            assert(block_roles(insn)[j] == "x_dbg"@);
        } else if j == 5 {
            assert(block_roles(insn)[j] == "s0_dbg"@);
        } else if j == 6 {
            assert(block_roles(insn)[j] == "s1_dbg"@);
        } else if j == 7 {
            assert(block_roles(insn)[j] == "y_dbg"@);
        }
    }
}

#[verifier::spinoff_prover]
#[verifier::rlimit(100)]
proof fn lemma_seek_roles_distinct(insn: Insn)
    requires
        insn is Seek,
    ensures
        forall|i: int, j: int|
            0 <= i < j < block_roles(insn).len() ==> (#[trigger] block_roles(insn)[i])
                != (#[trigger] block_roles(insn)[j]),
{
    reveal_strlit("x");
    reveal_strlit("s0");
    reveal_strlit("s1");
    reveal_strlit("y");
    reveal_strlit("xa");
    reveal_strlit("net");
    reveal_strlit("test");
    reveal_strlit("ya");
    reveal_strlit("xb");
    reveal_strlit("s0b");
    reveal_strlit("s1b");
    reveal_strlit("odd_net");
    reveal_strlit("even_net");
    reveal_strlit("yb");
    reveal_strlit("xc");
    reveal_strlit("s0c");
    reveal_strlit("s1c");
    reveal_strlit("yc");
    assert("x"@[0] == 'x' && "x"@.len() == 1);
    assert("s0"@[0] == 's' && "s0"@[1] == '0' && "s0"@.len() == 2);
    assert("s1"@[0] == 's' && "s1"@[1] == '1' && "s1"@.len() == 2);
    assert("y"@[0] == 'y' && "y"@.len() == 1);
    assert("xa"@[0] == 'x' && "xa"@[1] == 'a' && "xa"@.len() == 2);
    assert("net"@[0] == 'n' && "net"@[1] == 'e' && "net"@[2] == 't' && "net"@.len() == 3);
    assert("test"@[0] == 't' && "test"@[1] == 'e' && "test"@[2] == 's' && "test"@[3] == 't' && "test"@.len() == 4);
    assert("ya"@[0] == 'y' && "ya"@[1] == 'a' && "ya"@.len() == 2);
    assert("xb"@[0] == 'x' && "xb"@[1] == 'b' && "xb"@.len() == 2);
    assert("s0b"@[0] == 's' && "s0b"@[1] == '0' && "s0b"@[2] == 'b' && "s0b"@.len() == 3);
    assert("s1b"@[0] == 's' && "s1b"@[1] == '1' && "s1b"@[2] == 'b' && "s1b"@.len() == 3);
    assert("odd_net"@[0] == 'o' && "odd_net"@[1] == 'd' && "odd_net"@[2] == 'd' && "odd_net"@[3] == '_' && "odd_net"@[4] == 'n' && "odd_net"@[5] == 'e' && "odd_net"@[6] == 't' && "odd_net"@.len() == 7);
    assert("even_net"@[0] == 'e' && "even_net"@[1] == 'v' && "even_net"@[2] == 'e' && "even_net"@[3] == 'n' && "even_net"@[4] == '_' && "even_net"@[5] == 'n' && "even_net"@[6] == 'e' && "even_net"@[7] == 't' && "even_net"@.len() == 8);
    assert("yb"@[0] == 'y' && "yb"@[1] == 'b' && "yb"@.len() == 2);
    assert("xc"@[0] == 'x' && "xc"@[1] == 'c' && "xc"@.len() == 2);
    assert("s0c"@[0] == 's' && "s0c"@[1] == '0' && "s0c"@[2] == 'c' && "s0c"@.len() == 3);
    assert("s1c"@[0] == 's' && "s1c"@[1] == '1' && "s1c"@[2] == 'c' && "s1c"@.len() == 3);
    assert("yc"@[0] == 'y' && "yc"@[1] == 'c' && "yc"@.len() == 2);
    assert("x"@ != "s0"@);
    assert("x"@ != "s1"@);
    assert("x"@ != "y"@);
    assert("x"@ != "xa"@);
    assert("x"@ != "net"@);
    assert("x"@ != "test"@);
    assert("x"@ != "ya"@);
    assert("x"@ != "xb"@);
    assert("x"@ != "s0b"@);
    assert("x"@ != "s1b"@);
    assert("x"@ != "odd_net"@);
    assert("x"@ != "even_net"@);
    assert("x"@ != "yb"@);
    assert("x"@ != "xc"@);
    assert("x"@ != "s0c"@);
    assert("x"@ != "s1c"@);
    assert("x"@ != "yc"@);
    assert("s0"@ != "s1"@);
    assert("s0"@ != "y"@);
    assert("s0"@ != "xa"@);
    assert("s0"@ != "net"@);
    assert("s0"@ != "test"@);
    assert("s0"@ != "ya"@);
    assert("s0"@ != "xb"@);
    assert("s0"@ != "s0b"@);
    assert("s0"@ != "s1b"@);
    assert("s0"@ != "odd_net"@);
    assert("s0"@ != "even_net"@);
    assert("s0"@ != "yb"@);
    assert("s0"@ != "xc"@);
    assert("s0"@ != "s0c"@);
    assert("s0"@ != "s1c"@);
    assert("s0"@ != "yc"@);
    assert("s1"@ != "y"@);
    assert("s1"@ != "xa"@);
    assert("s1"@ != "net"@);
    assert("s1"@ != "test"@);
    assert("s1"@ != "ya"@);
    assert("s1"@ != "xb"@);
    assert("s1"@ != "s0b"@);
    assert("s1"@ != "s1b"@);
    assert("s1"@ != "odd_net"@);
    assert("s1"@ != "even_net"@);
    assert("s1"@ != "yb"@);
    assert("s1"@ != "xc"@);
    assert("s1"@ != "s0c"@);
    assert("s1"@ != "s1c"@);
    assert("s1"@ != "yc"@);
    assert("y"@ != "xa"@);
    assert("y"@ != "net"@);
    assert("y"@ != "test"@);
    assert("y"@ != "ya"@);
    assert("y"@ != "xb"@);
    assert("y"@ != "s0b"@);
    assert("y"@ != "s1b"@);
    assert("y"@ != "odd_net"@);
    assert("y"@ != "even_net"@);
    assert("y"@ != "yb"@);
    assert("y"@ != "xc"@);
    assert("y"@ != "s0c"@);
    assert("y"@ != "s1c"@);
    assert("y"@ != "yc"@);
    assert("xa"@ != "net"@);
    assert("xa"@ != "test"@);
    assert("xa"@ != "ya"@);
    assert("xa"@ != "xb"@);
    assert("xa"@ != "s0b"@);
    assert("xa"@ != "s1b"@);
    assert("xa"@ != "odd_net"@);
    assert("xa"@ != "even_net"@);
    assert("xa"@ != "yb"@);
    assert("xa"@ != "xc"@);
    assert("xa"@ != "s0c"@);
    assert("xa"@ != "s1c"@);
    assert("xa"@ != "yc"@);
    assert("net"@ != "test"@);
    assert("net"@ != "ya"@);
    assert("net"@ != "xb"@);
    assert("net"@ != "s0b"@);
    assert("net"@ != "s1b"@);
    assert("net"@ != "odd_net"@);
    assert("net"@ != "even_net"@);
    assert("net"@ != "yb"@);
    assert("net"@ != "xc"@);
    assert("net"@ != "s0c"@);
    assert("net"@ != "s1c"@);
    assert("net"@ != "yc"@);
    assert("test"@ != "ya"@);
    assert("test"@ != "xb"@);
    assert("test"@ != "s0b"@);
    assert("test"@ != "s1b"@);
    assert("test"@ != "odd_net"@);
    assert("test"@ != "even_net"@);
    assert("test"@ != "yb"@);
    assert("test"@ != "xc"@);
    assert("test"@ != "s0c"@);
    assert("test"@ != "s1c"@);
    assert("test"@ != "yc"@);
    assert("ya"@ != "xb"@);
    assert("ya"@ != "s0b"@);
    assert("ya"@ != "s1b"@);
    assert("ya"@ != "odd_net"@);
    assert("ya"@ != "even_net"@);
    assert("ya"@ != "yb"@);
    assert("ya"@ != "xc"@);
    assert("ya"@ != "s0c"@);
    assert("ya"@ != "s1c"@);
    assert("ya"@ != "yc"@);
    assert("xb"@ != "s0b"@);
    assert("xb"@ != "s1b"@);
    assert("xb"@ != "odd_net"@);
    assert("xb"@ != "even_net"@);
    assert("xb"@ != "yb"@);
    assert("xb"@ != "xc"@);
    assert("xb"@ != "s0c"@);
    assert("xb"@ != "s1c"@);
    assert("xb"@ != "yc"@);
    assert("s0b"@ != "s1b"@);
    assert("s0b"@ != "odd_net"@);
    assert("s0b"@ != "even_net"@);
    assert("s0b"@ != "yb"@);
    assert("s0b"@ != "xc"@);
    assert("s0b"@ != "s0c"@);
    assert("s0b"@ != "s1c"@);
    assert("s0b"@ != "yc"@);
    assert("s1b"@ != "odd_net"@);
    assert("s1b"@ != "even_net"@);
    assert("s1b"@ != "yb"@);
    assert("s1b"@ != "xc"@);
    assert("s1b"@ != "s0c"@);
    assert("s1b"@ != "s1c"@);
    assert("s1b"@ != "yc"@);
    assert("odd_net"@ != "even_net"@);
    assert("odd_net"@ != "yb"@);
    assert("odd_net"@ != "xc"@);
    assert("odd_net"@ != "s0c"@);
    assert("odd_net"@ != "s1c"@);
    assert("odd_net"@ != "yc"@);
    assert("even_net"@ != "yb"@);
    assert("even_net"@ != "xc"@);
    assert("even_net"@ != "s0c"@);
    assert("even_net"@ != "s1c"@);
    assert("even_net"@ != "yc"@);
    assert("yb"@ != "xc"@);
    assert("yb"@ != "s0c"@);
    assert("yb"@ != "s1c"@);
    assert("yb"@ != "yc"@);
    assert("xc"@ != "s0c"@);
    assert("xc"@ != "s1c"@);
    assert("xc"@ != "yc"@);
    assert("s0c"@ != "s1c"@);
    assert("s0c"@ != "yc"@);
    assert("s1c"@ != "yc"@);
    assert forall|i: int, j: int|
        0 <= i < j < block_roles(insn).len() implies (#[trigger] block_roles(insn)[i])
        != (#[trigger] block_roles(insn)[j]) by {
        if i == 0 {
            assert(block_roles(insn)[i] == "x"@);
        } else if i == 1 {
            assert(block_roles(insn)[i] == "s0"@);
        } else if i == 2 {
            assert(block_roles(insn)[i] == "s1"@);
        } else if i == 3 {
            assert(block_roles(insn)[i] == "y"@);
        } else if i == 4 {
            assert(block_roles(insn)[i] == "xa"@);
        } else if i == 5 {
            assert(block_roles(insn)[i] == "net"@);
        } else if i == 6 {
            assert(block_roles(insn)[i] == "test"@);
        } else if i == 7 {
            assert(block_roles(insn)[i] == "ya"@);
        } else if i == 8 {
            assert(block_roles(insn)[i] == "xb"@);
        } else if i == 9 {
            assert(block_roles(insn)[i] == "s0b"@);
        } else if i == 10 {
            assert(block_roles(insn)[i] == "s1b"@);
        } else if i == 11 {
            assert(block_roles(insn)[i] == "odd_net"@);
        } else if i == 12 {
            assert(block_roles(insn)[i] == "even_net"@);
        } else if i == 13 {
            assert(block_roles(insn)[i] == "yb"@);
        } else if i == 14 {
            assert(block_roles(insn)[i] == "xc"@);
        } else if i == 15 {
            assert(block_roles(insn)[i] == "s0c"@);
        } else if i == 16 {
            assert(block_roles(insn)[i] == "s1c"@);
        } else if i == 17 {
            assert(block_roles(insn)[i] == "yc"@);
        }
        if j == 0 {
            assert(block_roles(insn)[j] == "x"@);
        } else if j == 1 {
            assert(block_roles(insn)[j] == "s0"@);
        } else if j == 2 {
            assert(block_roles(insn)[j] == "s1"@);
        } else if j == 3 {
            assert(block_roles(insn)[j] == "y"@);
        } else if j == 4 {
            assert(block_roles(insn)[j] == "xa"@);
        } else if j == 5 {
            assert(block_roles(insn)[j] == "net"@);
        } else if j == 6 {
            assert(block_roles(insn)[j] == "test"@);
        } else if j == 7 {
            assert(block_roles(insn)[j] == "ya"@);
        } else if j == 8 {
            assert(block_roles(insn)[j] == "xb"@);
        } else if j == 9 {
            assert(block_roles(insn)[j] == "s0b"@);
        } else if j == 10 {
            assert(block_roles(insn)[j] == "s1b"@);
        } else if j == 11 {
            assert(block_roles(insn)[j] == "odd_net"@);
        } else if j == 12 {
            assert(block_roles(insn)[j] == "even_net"@);
        } else if j == 13 {
            assert(block_roles(insn)[j] == "yb"@);
        } else if j == 14 {
            assert(block_roles(insn)[j] == "xc"@);
        } else if j == 15 {
            assert(block_roles(insn)[j] == "s0c"@);
        } else if j == 16 {
            assert(block_roles(insn)[j] == "s1c"@);
        } else if j == 17 {
            assert(block_roles(insn)[j] == "yc"@);
        }
    }
}

#[verifier::spinoff_prover]
#[verifier::rlimit(100)]
proof fn lemma_jmp_roles_distinct(insn: Insn)
    requires
        insn is Jmp,
    ensures
        forall|i: int, j: int|
            0 <= i < j < block_roles(insn).len() ==> (#[trigger] block_roles(insn)[i])
                != (#[trigger] block_roles(insn)[j]),
{
    reveal_strlit("x");
    reveal_strlit("s0");
    reveal_strlit("s1");
    reveal_strlit("y");
    reveal_strlit("xa");
    reveal_strlit("s1a_t");
    reveal_strlit("ya_t");
    reveal_strlit("net");
    reveal_strlit("shift");
    reveal_strlit("ya_f");
    reveal_strlit("xb_t");
    reveal_strlit("s1b_t");
    reveal_strlit("yb_t");
    reveal_strlit("xb_f");
    reveal_strlit("s0b_f");
    reveal_strlit("yb_f");
    assert("x"@[0] == 'x' && "x"@.len() == 1);
    assert("s0"@[0] == 's' && "s0"@[1] == '0' && "s0"@.len() == 2);
    assert("s1"@[0] == 's' && "s1"@[1] == '1' && "s1"@.len() == 2);
    assert("y"@[0] == 'y' && "y"@.len() == 1);
    assert("xa"@[0] == 'x' && "xa"@[1] == 'a' && "xa"@.len() == 2);
    assert("s1a_t"@[0] == 's' && "s1a_t"@[1] == '1' && "s1a_t"@[2] == 'a' && "s1a_t"@[3] == '_' && "s1a_t"@[4] == 't' && "s1a_t"@.len() == 5);
    assert("ya_t"@[0] == 'y' && "ya_t"@[1] == 'a' && "ya_t"@[2] == '_' && "ya_t"@[3] == 't' && "ya_t"@.len() == 4);
    assert("net"@[0] == 'n' && "net"@[1] == 'e' && "net"@[2] == 't' && "net"@.len() == 3);
    assert("shift"@[0] == 's' && "shift"@[1] == 'h' && "shift"@[2] == 'i' && "shift"@[3] == 'f' && "shift"@[4] == 't' && "shift"@.len() == 5);
    assert("ya_f"@[0] == 'y' && "ya_f"@[1] == 'a' && "ya_f"@[2] == '_' && "ya_f"@[3] == 'f' && "ya_f"@.len() == 4);
    assert("xb_t"@[0] == 'x' && "xb_t"@[1] == 'b' && "xb_t"@[2] == '_' && "xb_t"@[3] == 't' && "xb_t"@.len() == 4);
    assert("s1b_t"@[0] == 's' && "s1b_t"@[1] == '1' && "s1b_t"@[2] == 'b' && "s1b_t"@[3] == '_' && "s1b_t"@[4] == 't' && "s1b_t"@.len() == 5);
    assert("yb_t"@[0] == 'y' && "yb_t"@[1] == 'b' && "yb_t"@[2] == '_' && "yb_t"@[3] == 't' && "yb_t"@.len() == 4);
    assert("xb_f"@[0] == 'x' && "xb_f"@[1] == 'b' && "xb_f"@[2] == '_' && "xb_f"@[3] == 'f' && "xb_f"@.len() == 4);
    assert("s0b_f"@[0] == 's' && "s0b_f"@[1] == '0' && "s0b_f"@[2] == 'b' && "s0b_f"@[3] == '_' && "s0b_f"@[4] == 'f' && "s0b_f"@.len() == 5);
    assert("yb_f"@[0] == 'y' && "yb_f"@[1] == 'b' && "yb_f"@[2] == '_' && "yb_f"@[3] == 'f' && "yb_f"@.len() == 4);
    assert("x"@ != "s0"@);
    assert("x"@ != "s1"@);
    assert("x"@ != "y"@);
    assert("x"@ != "xa"@);
    assert("x"@ != "s1a_t"@);
    assert("x"@ != "ya_t"@);
    assert("x"@ != "net"@);
    assert("x"@ != "shift"@);
    assert("x"@ != "ya_f"@);
    assert("x"@ != "xb_t"@);
    assert("x"@ != "s1b_t"@);
    assert("x"@ != "yb_t"@);
    assert("x"@ != "xb_f"@);
    assert("x"@ != "s0b_f"@);
    assert("x"@ != "yb_f"@);
    assert("s0"@ != "s1"@);
    assert("s0"@ != "y"@);
    assert("s0"@ != "xa"@);
    assert("s0"@ != "s1a_t"@);
    assert("s0"@ != "ya_t"@);
    assert("s0"@ != "net"@);
    assert("s0"@ != "shift"@);
    assert("s0"@ != "ya_f"@);
    assert("s0"@ != "xb_t"@);
    assert("s0"@ != "s1b_t"@);
    assert("s0"@ != "yb_t"@);
    assert("s0"@ != "xb_f"@);
    assert("s0"@ != "s0b_f"@);
    assert("s0"@ != "yb_f"@);
    assert("s1"@ != "y"@);
    assert("s1"@ != "xa"@);
    assert("s1"@ != "s1a_t"@);
    assert("s1"@ != "ya_t"@);
    assert("s1"@ != "net"@);
    assert("s1"@ != "shift"@);
    assert("s1"@ != "ya_f"@);
    assert("s1"@ != "xb_t"@);
    assert("s1"@ != "s1b_t"@);
    assert("s1"@ != "yb_t"@);
    assert("s1"@ != "xb_f"@);
    assert("s1"@ != "s0b_f"@);
    assert("s1"@ != "yb_f"@);
    assert("y"@ != "xa"@);
    assert("y"@ != "s1a_t"@);
    assert("y"@ != "ya_t"@);
    assert("y"@ != "net"@);
    assert("y"@ != "shift"@);
    assert("y"@ != "ya_f"@);
    assert("y"@ != "xb_t"@);
    assert("y"@ != "s1b_t"@);
    assert("y"@ != "yb_t"@);
    assert("y"@ != "xb_f"@);
    assert("y"@ != "s0b_f"@);
    assert("y"@ != "yb_f"@);
    assert("xa"@ != "s1a_t"@);
    assert("xa"@ != "ya_t"@);
    assert("xa"@ != "net"@);
    assert("xa"@ != "shift"@);
    assert("xa"@ != "ya_f"@);
    assert("xa"@ != "xb_t"@);
    assert("xa"@ != "s1b_t"@);
    assert("xa"@ != "yb_t"@);
    assert("xa"@ != "xb_f"@);
    assert("xa"@ != "s0b_f"@);
    assert("xa"@ != "yb_f"@);
    assert("s1a_t"@ != "ya_t"@);
    assert("s1a_t"@ != "net"@);
    assert("s1a_t"@ != "shift"@);
    assert("s1a_t"@ != "ya_f"@);
    assert("s1a_t"@ != "xb_t"@);
    assert("s1a_t"@ != "s1b_t"@);
    assert("s1a_t"@ != "yb_t"@);
    assert("s1a_t"@ != "xb_f"@);
    assert("s1a_t"@ != "s0b_f"@);
    assert("s1a_t"@ != "yb_f"@);
    assert("ya_t"@ != "net"@);
    assert("ya_t"@ != "shift"@);
    assert("ya_t"@ != "ya_f"@);
    assert("ya_t"@ != "xb_t"@);
    assert("ya_t"@ != "s1b_t"@);
    assert("ya_t"@ != "yb_t"@);
    assert("ya_t"@ != "xb_f"@);
    assert("ya_t"@ != "s0b_f"@);
    assert("ya_t"@ != "yb_f"@);
    assert("net"@ != "shift"@);
    assert("net"@ != "ya_f"@);
    assert("net"@ != "xb_t"@);
    assert("net"@ != "s1b_t"@);
    assert("net"@ != "yb_t"@);
    assert("net"@ != "xb_f"@);
    assert("net"@ != "s0b_f"@);
    assert("net"@ != "yb_f"@);
    assert("shift"@ != "ya_f"@);
    assert("shift"@ != "xb_t"@);
    assert("shift"@ != "s1b_t"@);
    assert("shift"@ != "yb_t"@);
    assert("shift"@ != "xb_f"@);
    assert("shift"@ != "s0b_f"@);
    assert("shift"@ != "yb_f"@);
    assert("ya_f"@ != "xb_t"@);
    assert("ya_f"@ != "s1b_t"@);
    assert("ya_f"@ != "yb_t"@);
    assert("ya_f"@ != "xb_f"@);
    assert("ya_f"@ != "s0b_f"@);
    assert("ya_f"@ != "yb_f"@);
    assert("xb_t"@ != "s1b_t"@);
    assert("xb_t"@ != "yb_t"@);
    assert("xb_t"@ != "xb_f"@);
    assert("xb_t"@ != "s0b_f"@);
    assert("xb_t"@ != "yb_f"@);
    assert("s1b_t"@ != "yb_t"@);
    assert("s1b_t"@ != "xb_f"@);
    assert("s1b_t"@ != "s0b_f"@);
    assert("s1b_t"@ != "yb_f"@);
    assert("yb_t"@ != "xb_f"@);
    assert("yb_t"@ != "s0b_f"@);
    assert("yb_t"@ != "yb_f"@);
    assert("xb_f"@ != "s0b_f"@);
    assert("xb_f"@ != "yb_f"@);
    assert("s0b_f"@ != "yb_f"@);
    assert forall|i: int, j: int|
        0 <= i < j < block_roles(insn).len() implies (#[trigger] block_roles(insn)[i])
        != (#[trigger] block_roles(insn)[j]) by {
        if i == 0 {
            assert(block_roles(insn)[i] == "x"@);
        } else if i == 1 {
            assert(block_roles(insn)[i] == "s0"@);
        } else if i == 2 {
            assert(block_roles(insn)[i] == "s1"@);
        } else if i == 3 {
            assert(block_roles(insn)[i] == "y"@);
        } else if i == 4 {
            assert(block_roles(insn)[i] == "xa"@);
        } else if i == 5 {
            assert(block_roles(insn)[i] == "s1a_t"@);
        } else if i == 6 {
            assert(block_roles(insn)[i] == "ya_t"@);
        } else if i == 7 {
            assert(block_roles(insn)[i] == "net"@);
        } else if i == 8 {
            assert(block_roles(insn)[i] == "shift"@);
        } else if i == 9 {
            assert(block_roles(insn)[i] == "ya_f"@);
        } else if i == 10 {
            assert(block_roles(insn)[i] == "xb_t"@);
        } else if i == 11 {
            assert(block_roles(insn)[i] == "s1b_t"@);
        } else if i == 12 {
            assert(block_roles(insn)[i] == "yb_t"@);
        } else if i == 13 {
            assert(block_roles(insn)[i] == "xb_f"@);
        } else if i == 14 {
            assert(block_roles(insn)[i] == "s0b_f"@);
        } else if i == 15 {
            assert(block_roles(insn)[i] == "yb_f"@);
        }
        if j == 0 {
            assert(block_roles(insn)[j] == "x"@);
        } else if j == 1 {
            assert(block_roles(insn)[j] == "s0"@);
        } else if j == 2 {
            assert(block_roles(insn)[j] == "s1"@);
        } else if j == 3 {
            assert(block_roles(insn)[j] == "y"@);
        } else if j == 4 {
            assert(block_roles(insn)[j] == "xa"@);
        } else if j == 5 {
            assert(block_roles(insn)[j] == "s1a_t"@);
        } else if j == 6 {
            assert(block_roles(insn)[j] == "ya_t"@);
        } else if j == 7 {
            assert(block_roles(insn)[j] == "net"@);
        } else if j == 8 {
            assert(block_roles(insn)[j] == "shift"@);
        } else if j == 9 {
            assert(block_roles(insn)[j] == "ya_f"@);
        } else if j == 10 {
            assert(block_roles(insn)[j] == "xb_t"@);
        } else if j == 11 {
            assert(block_roles(insn)[j] == "s1b_t"@);
        } else if j == 12 {
            assert(block_roles(insn)[j] == "yb_t"@);
        } else if j == 13 {
            assert(block_roles(insn)[j] == "xb_f"@);
        } else if j == 14 {
            assert(block_roles(insn)[j] == "s0b_f"@);
        } else if j == 15 {
            assert(block_roles(insn)[j] == "yb_f"@);
        }
    }
}

#[verifier::spinoff_prover]
proof fn lemma_block_roles_distinct(insn: Insn)
    ensures
        forall|i: int, j: int|
            0 <= i < j < block_roles(insn).len() ==> (#[trigger] block_roles(insn)[i])
                != (#[trigger] block_roles(insn)[j]),
{
    match insn {
        Insn::Write(_) => lemma_write_roles_distinct(insn),
        Insn::Io(_) => lemma_io_roles_distinct(insn),
        Insn::Debug => lemma_debug_roles_distinct(insn),
        Insn::Seek(_) => lemma_seek_roles_distinct(insn),
        Insn::Jmp(_, _) => lemma_jmp_roles_distinct(insn),
    }
}

/// Each key of a block is its role forged at the block's position.
#[verifier::spinoff_prover]
#[verifier::rlimit(100)]
proof fn lemma_block_keys_forged(pos: nat, insn: Insn)
    ensures
        insn_rules_spec(pos, insn).len() == block_roles(insn).len(),
        forall|k: int|
            0 <= k < insn_rules_spec(pos, insn).len() ==> (#[trigger] insn_rules_spec(
                pos,
                insn,
            )[k]).0 == forge_spec(pos, block_roles(insn)[k]),
{
    match insn {
        Insn::Write(_) => {
            assert(insn_rules_spec(pos, insn).len() == 4);
            assert forall|k: int|
                0 <= k < insn_rules_spec(pos, insn).len() implies (#[trigger] insn_rules_spec(
                pos,
                insn,
            )[k]).0 == forge_spec(pos, block_roles(insn)[k]) by {
                if k == 0 {
                    assert(insn_rules_spec(pos, insn)[k].0 == forge_spec(pos, "x"@));
                    assert(block_roles(insn)[k] == "x"@);
                } else if k == 1 {
                    assert(insn_rules_spec(pos, insn)[k].0 == forge_spec(pos, "y"@));
                    assert(block_roles(insn)[k] == "y"@);
                } else if k == 2 {
                    assert(insn_rules_spec(pos, insn)[k].0 == forge_spec(pos, "s0"@));
                    assert(block_roles(insn)[k] == "s0"@);
                } else if k == 3 {
                    assert(insn_rules_spec(pos, insn)[k].0 == forge_spec(pos, "s1"@));
                    assert(block_roles(insn)[k] == "s1"@);
                }
            }
        },
        Insn::Io(_) => {
            assert(insn_rules_spec(pos, insn).len() == 4);
            assert forall|k: int|
                0 <= k < insn_rules_spec(pos, insn).len() implies (#[trigger] insn_rules_spec(
                pos,
                insn,
            )[k]).0 == forge_spec(pos, block_roles(insn)[k]) by {
                if k == 0 {
                    assert(insn_rules_spec(pos, insn)[k].0 == forge_spec(pos, "x"@));
                    assert(block_roles(insn)[k] == "x"@);
                } else if k == 1 {
                    assert(insn_rules_spec(pos, insn)[k].0 == forge_spec(pos, "y"@));
                    assert(block_roles(insn)[k] == "y"@);
                } else if k == 2 {
                    assert(insn_rules_spec(pos, insn)[k].0 == forge_spec(pos, "s0"@));
                    assert(block_roles(insn)[k] == "s0"@);
                } else if k == 3 {
                    assert(insn_rules_spec(pos, insn)[k].0 == forge_spec(pos, "s1"@));
                    assert(block_roles(insn)[k] == "s1"@);
                }
            }
        },
        Insn::Debug => {
            assert(insn_rules_spec(pos, insn).len() == 8);
            assert forall|k: int|
                0 <= k < insn_rules_spec(pos, insn).len() implies (#[trigger] insn_rules_spec(
                pos,
                insn,
            )[k]).0 == forge_spec(pos, block_roles(insn)[k]) by {
                if k == 0 {
                    assert(insn_rules_spec(pos, insn)[k].0 == forge_spec(pos, "x"@));
                    assert(block_roles(insn)[k] == "x"@);
                } else if k == 1 {
                    assert(insn_rules_spec(pos, insn)[k].0 == forge_spec(pos, "s0"@));
                    assert(block_roles(insn)[k] == "s0"@);
                } else if k == 2 {
                    assert(insn_rules_spec(pos, insn)[k].0 == forge_spec(pos, "s1"@));
                    assert(block_roles(insn)[k] == "s1"@);
                } else if k == 3 {
                    assert(insn_rules_spec(pos, insn)[k].0 == forge_spec(pos, "y"@));
                    assert(block_roles(insn)[k] == "y"@);
                } else if k == 4 {
                    assert(insn_rules_spec(pos, insn)[k].0 == forge_spec(pos, "x_dbg"@));
                    assert(block_roles(insn)[k] == "x_dbg"@);
                } else if k == 5 {
                    assert(insn_rules_spec(pos, insn)[k].0 == forge_spec(pos, "s0_dbg"@));
                    assert(block_roles(insn)[k] == "s0_dbg"@);
                } else if k == 6 {
                    assert(insn_rules_spec(pos, insn)[k].0 == forge_spec(pos, "s1_dbg"@));
                    assert(block_roles(insn)[k] == "s1_dbg"@);
                } else if k == 7 {
                    assert(insn_rules_spec(pos, insn)[k].0 == forge_spec(pos, "y_dbg"@));
                    assert(block_roles(insn)[k] == "y_dbg"@);
                }
            }
        },
        Insn::Seek(_) => {
            assert(insn_rules_spec(pos, insn).len() == 18);
            assert forall|k: int|
                0 <= k < insn_rules_spec(pos, insn).len() implies (#[trigger] insn_rules_spec(
                pos,
                insn,
            )[k]).0 == forge_spec(pos, block_roles(insn)[k]) by {
                if k == 0 {
                    assert(insn_rules_spec(pos, insn)[k].0 == forge_spec(pos, "x"@));
                    assert(block_roles(insn)[k] == "x"@);
                } else if k == 1 {
                    assert(insn_rules_spec(pos, insn)[k].0 == forge_spec(pos, "s0"@));
                    assert(block_roles(insn)[k] == "s0"@);
                } else if k == 2 {
                    assert(insn_rules_spec(pos, insn)[k].0 == forge_spec(pos, "s1"@));
                    assert(block_roles(insn)[k] == "s1"@);
                } else if k == 3 {
                    assert(insn_rules_spec(pos, insn)[k].0 == forge_spec(pos, "y"@));
                    assert(block_roles(insn)[k] == "y"@);
                } else if k == 4 {
                    assert(insn_rules_spec(pos, insn)[k].0 == forge_spec(pos, "xa"@));
                    assert(block_roles(insn)[k] == "xa"@);
                } else if k == 5 {
                    assert(insn_rules_spec(pos, insn)[k].0 == forge_spec(pos, "net"@));
                    assert(block_roles(insn)[k] == "net"@);
                } else if k == 6 {
                    assert(insn_rules_spec(pos, insn)[k].0 == forge_spec(pos, "test"@));
                    assert(block_roles(insn)[k] == "test"@);
                } else if k == 7 {
                    assert(insn_rules_spec(pos, insn)[k].0 == forge_spec(pos, "ya"@));
                    assert(block_roles(insn)[k] == "ya"@);
                } else if k == 8 {
                    assert(insn_rules_spec(pos, insn)[k].0 == forge_spec(pos, "xb"@));
                    assert(block_roles(insn)[k] == "xb"@);
                } else if k == 9 {
                    assert(insn_rules_spec(pos, insn)[k].0 == forge_spec(pos, "s0b"@));
                    assert(block_roles(insn)[k] == "s0b"@);
                } else if k == 10 {
                    assert(insn_rules_spec(pos, insn)[k].0 == forge_spec(pos, "s1b"@));
                    assert(block_roles(insn)[k] == "s1b"@);
                } else if k == 11 {
                    assert(insn_rules_spec(pos, insn)[k].0 == forge_spec(pos, "odd_net"@));
                    assert(block_roles(insn)[k] == "odd_net"@);
                } else if k == 12 {
                    assert(insn_rules_spec(pos, insn)[k].0 == forge_spec(pos, "even_net"@));
                    assert(block_roles(insn)[k] == "even_net"@);
                } else if k == 13 {
                    assert(insn_rules_spec(pos, insn)[k].0 == forge_spec(pos, "yb"@));
                    assert(block_roles(insn)[k] == "yb"@);
                } else if k == 14 {
                    assert(insn_rules_spec(pos, insn)[k].0 == forge_spec(pos, "xc"@));
                    assert(block_roles(insn)[k] == "xc"@);
                } else if k == 15 {
                    assert(insn_rules_spec(pos, insn)[k].0 == forge_spec(pos, "s0c"@));
                    assert(block_roles(insn)[k] == "s0c"@);
                } else if k == 16 {
                    assert(insn_rules_spec(pos, insn)[k].0 == forge_spec(pos, "s1c"@));
                    assert(block_roles(insn)[k] == "s1c"@);
                } else if k == 17 {
                    assert(insn_rules_spec(pos, insn)[k].0 == forge_spec(pos, "yc"@));
                    assert(block_roles(insn)[k] == "yc"@);
                }
            }
        },
        Insn::Jmp(_, _) => {
            assert(insn_rules_spec(pos, insn).len() == 16);
            assert forall|k: int|
                0 <= k < insn_rules_spec(pos, insn).len() implies (#[trigger] insn_rules_spec(
                pos,
                insn,
            )[k]).0 == forge_spec(pos, block_roles(insn)[k]) by {
                if k == 0 {
                    assert(insn_rules_spec(pos, insn)[k].0 == forge_spec(pos, "x"@));
                    assert(block_roles(insn)[k] == "x"@);
                } else if k == 1 {
                    assert(insn_rules_spec(pos, insn)[k].0 == forge_spec(pos, "s0"@));
                    assert(block_roles(insn)[k] == "s0"@);
                } else if k == 2 {
                    assert(insn_rules_spec(pos, insn)[k].0 == forge_spec(pos, "s1"@));
                    assert(block_roles(insn)[k] == "s1"@);
                } else if k == 3 {
                    assert(insn_rules_spec(pos, insn)[k].0 == forge_spec(pos, "y"@));
                    assert(block_roles(insn)[k] == "y"@);
                } else if k == 4 {
                    assert(insn_rules_spec(pos, insn)[k].0 == forge_spec(pos, "xa"@));
                    assert(block_roles(insn)[k] == "xa"@);
                } else if k == 5 {
                    assert(insn_rules_spec(pos, insn)[k].0 == forge_spec(pos, "s1a_t"@));
                    assert(block_roles(insn)[k] == "s1a_t"@);
                } else if k == 6 {
                    assert(insn_rules_spec(pos, insn)[k].0 == forge_spec(pos, "ya_t"@));
                    assert(block_roles(insn)[k] == "ya_t"@);
                } else if k == 7 {
                    assert(insn_rules_spec(pos, insn)[k].0 == forge_spec(pos, "net"@));
                    assert(block_roles(insn)[k] == "net"@);
                } else if k == 8 {
                    assert(insn_rules_spec(pos, insn)[k].0 == forge_spec(pos, "shift"@));
                    assert(block_roles(insn)[k] == "shift"@);
                } else if k == 9 {
                    assert(insn_rules_spec(pos, insn)[k].0 == forge_spec(pos, "ya_f"@));
                    assert(block_roles(insn)[k] == "ya_f"@);
                } else if k == 10 {
                    assert(insn_rules_spec(pos, insn)[k].0 == forge_spec(pos, "xb_t"@));
                    assert(block_roles(insn)[k] == "xb_t"@);
                } else if k == 11 {
                    assert(insn_rules_spec(pos, insn)[k].0 == forge_spec(pos, "s1b_t"@));
                    assert(block_roles(insn)[k] == "s1b_t"@);
                } else if k == 12 {
                    assert(insn_rules_spec(pos, insn)[k].0 == forge_spec(pos, "yb_t"@));
                    assert(block_roles(insn)[k] == "yb_t"@);
                } else if k == 13 {
                    assert(insn_rules_spec(pos, insn)[k].0 == forge_spec(pos, "xb_f"@));
                    assert(block_roles(insn)[k] == "xb_f"@);
                } else if k == 14 {
                    assert(insn_rules_spec(pos, insn)[k].0 == forge_spec(pos, "s0b_f"@));
                    assert(block_roles(insn)[k] == "s0b_f"@);
                } else if k == 15 {
                    assert(insn_rules_spec(pos, insn)[k].0 == forge_spec(pos, "yb_f"@));
                    assert(block_roles(insn)[k] == "yb_f"@);
                }
            }
        },
    }
}

/// Within one block every start symbol is distinct, and every one carries
/// the block's position.
proof fn lemma_block_keys(pos: nat, insn: Insn)
    ensures
        forall|k1: int, k2: int|
            0 <= k1 < k2 < insn_rules_spec(pos, insn).len() ==> (#[trigger] insn_rules_spec(
                pos,
                insn,
            )[k1]).0 != (#[trigger] insn_rules_spec(pos, insn)[k2]).0,
        forall|k: int|
            0 <= k < insn_rules_spec(pos, insn).len() ==> tagged(
                pos,
                (#[trigger] insn_rules_spec(pos, insn)[k]).0,
            ),
{
    lemma_block_roles_distinct(insn);
    lemma_block_keys_forged(pos, insn);
    let block = insn_rules_spec(pos, insn);
    let roles = block_roles(insn);
    assert forall|k1: int, k2: int|
        0 <= k1 < k2 < block.len() implies (#[trigger] block[k1]).0 != (#[trigger] block[k2]).0 by {
        if block[k1].0 == block[k2].0 {
            lemma_forge_inj(pos, roles[k1], pos, roles[k2]);
        }
    }
    assert forall|k: int| 0 <= k < block.len() implies tagged(pos, (#[trigger] block[k]).0) by {
        assert(block[k].0 == forge_spec(pos, roles[k]));
    }
}

/// Whether `s` is forged at some position below `bound`.
pub open spec fn tagged_below(bound: int, s: Seq<char>) -> bool {
    exists|pos: nat| pos < bound && #[trigger] tagged(pos, s)
}

proof fn lemma_compile_rules_unique_upto(insns: Seq<Insn>, i: int)
    requires
        0 <= i <= insns.len(),
    ensures
        unique_keys(compile_rules_upto(insns, i)),
        forall|k: int|
            0 <= k < compile_rules_upto(insns, i).len() ==> tagged_below(
                i,
                (#[trigger] compile_rules_upto(insns, i)[k]).0,
            ),
    decreases i,
{
    if i > 0 {
        lemma_compile_rules_unique_upto(insns, i - 1);
        lemma_block_keys((i - 1) as nat, insns[i - 1]);
        let prev = compile_rules_upto(insns, i - 1);
        let block = insn_rules_spec((i - 1) as nat, insns[i - 1]);
        let all = compile_rules_upto(insns, i);
        assert forall|k1: int, k2: int|
            0 <= k1 < k2 < all.len() implies (#[trigger] all[k1]).0 != (#[trigger] all[k2]).0 by {
            if k2 < prev.len() {
                assert(all[k1] == prev[k1] && all[k2] == prev[k2]);
            } else if k1 >= prev.len() {
                assert(all[k1] == block[k1 - prev.len()] && all[k2] == block[k2 - prev.len()]);
            } else {
                assert(all[k1] == prev[k1] && all[k2] == block[k2 - prev.len()]);
                if all[k1].0 == all[k2].0 {
                    assert(tagged_below(i - 1, prev[k1].0));
                    let pos = choose|pos: nat| pos < i - 1 && #[trigger] tagged(pos, prev[k1].0);
                    let name1 = choose|name: Seq<char>|
                        prev[k1].0 == #[trigger] forge_spec(pos, name);
                    assert(tagged((i - 1) as nat, block[k2 - prev.len()].0));
                    let name2 = choose|name: Seq<char>|
                        block[k2 - prev.len()].0 == #[trigger] forge_spec((i - 1) as nat, name);
                    lemma_forge_inj(pos, name1, (i - 1) as nat, name2);
                }
            }
        }
        assert forall|k: int| 0 <= k < all.len() implies tagged_below(
            i,
            (#[trigger] all[k]).0,
        ) by {
            if k < prev.len() {
                assert(all[k] == prev[k]);
                let pos = choose|pos: nat| pos < i - 1 && #[trigger] tagged(pos, prev[k].0);
                assert(pos < i && tagged(pos, all[k].0));
            } else {
                assert(all[k] == block[k - prev.len()]);
                assert(tagged((i - 1) as nat, all[k].0));
                assert(((i - 1) as nat) < i);
            }
        }
    }
}

/// Start-symbol collisions cannot occur in compiled rulesets: every
/// emitted symbol name is namespaced by its originating instruction
/// position, so the merged rule blocks of a whole program keep their keys
/// pairwise distinct.
pub proof fn lemma_compiled_keys_unique(insns: Seq<Insn>)
    ensures
        unique_keys(compile_rules_upto(insns, insns.len() as int)),
{
    lemma_compile_rules_unique_upto(insns, insns.len() as int);
}

} // verus!
