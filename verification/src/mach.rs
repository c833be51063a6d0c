//! The bit machine: its instruction set, the pre-resolution statement form
//! with named labels, and label resolution into absolute offsets.

use vstd::prelude::*;

verus! {

/// A label name.
pub type LabelId = String;

/// An absolute instruction offset.
pub type InsnOffset = usize;

/// The label table as an ordered association from name to offset.
pub type LabelMap = Vec<(LabelId, InsnOffset)>;

#[derive(Debug, Clone, Copy, PartialEq, Eq, Structural)]
pub enum WriteOp {
    SetBit,
    UnsetBit,
}

#[derive(Debug, Clone, Copy, PartialEq, Eq, Structural)]
pub enum SeekOp {
    Left,
    Right,
}

#[derive(Debug, Clone, Copy, PartialEq, Eq, Structural)]
pub enum IoOp {
    In,
    Out,
}

/// A resolved instruction: jump targets are absolute offsets.
#[derive(Debug, Clone, Copy, PartialEq, Eq, Structural)]
pub enum Insn {
    Write(WriteOp),
    Seek(SeekOp),
    Io(IoOp),
    Jmp(InsnOffset, InsnOffset),
    Debug,
}

/// A jump target before resolution: fall through, or a named label.
#[derive(Debug, Clone, PartialEq, Eq)]
pub enum Target {
    NextAddress,
    Name(LabelId),
}

/// A statement before resolution: an instruction, or a label declaration.
#[derive(Debug, Clone, PartialEq, Eq)]
pub enum Stmt {
    Write(WriteOp),
    Seek(SeekOp),
    Io(IoOp),
    Label(LabelId),
    Jmp(Target, Target),
    Debug,
}

/// The mathematical shape of a jump target.
pub ghost enum TargetModel {
    Next,
    Name(Seq<char>),
}

/// The mathematical shape of a statement.
pub ghost enum StmtModel {
    Write(WriteOp),
    Seek(SeekOp),
    Io(IoOp),
    Label(Seq<char>),
    Jmp(TargetModel, TargetModel),
    Debug,
}

impl View for Target {
    type V = TargetModel;

    open spec fn view(&self) -> TargetModel {
        match self {
            Target::NextAddress => TargetModel::Next,
            Target::Name(id) => TargetModel::Name(id@),
        }
    }
}

impl View for Stmt {
    type V = StmtModel;

    open spec fn view(&self) -> StmtModel {
        match self {
            Stmt::Write(op) => StmtModel::Write(*op),
            Stmt::Seek(op) => StmtModel::Seek(*op),
            Stmt::Io(op) => StmtModel::Io(*op),
            Stmt::Label(id) => StmtModel::Label(id@),
            Stmt::Jmp(t, f) => StmtModel::Jmp(t@, f@),
            Stmt::Debug => StmtModel::Debug,
        }
    }
}

/// The statement sequence as models.
pub open spec fn stmts_model(s: Seq<Stmt>) -> Seq<StmtModel> {
    s.map(|i: int, st: Stmt| st@)
}

/// Resolution and statement-shape failures.
#[derive(Debug, Clone, PartialEq, Eq)]
pub enum MachErr {
    /// A failure carrying only a human-readable message, as a syntax
    /// error in source text.
    GeneralError { message: String },
    /// A statement of the wrong shape reached a stage expecting another.
    InvalidRule { rule: String },
    /// A label is declared twice.
    DuplicateLabel { label: LabelId },
    /// A jump names a label that no declaration defines.
    UnknownTarget { target: Target },
}

/// A bit-machine program: the resolved instruction list, and the label
/// table kept for debugging and symbol export.
#[derive(Debug)]
pub struct Program {
    pub instructions: Vec<Insn>,
    pub labels: LabelMap,
}

/// The label table as name/offset pairs.
pub open spec fn labels_model(m: Seq<(LabelId, InsnOffset)>) -> Seq<(Seq<char>, nat)> {
    m.map(|i: int, p: (LabelId, InsnOffset)| (p.0@, p.1 as nat))
}

/// The instruction offset of the statement at position `k`: the number of
/// non-label statements before it.
pub open spec fn offset_at(stmts: Seq<StmtModel>, k: int) -> nat
    decreases k,
{
    if k <= 0 {
        0
    } else if stmts[k - 1] is Label {
        offset_at(stmts, k - 1)
    } else {
        offset_at(stmts, k - 1) + 1
    }
}

/// The label declarations among the first `k` statements, each paired with
/// the offset of the instruction that follows it.
pub open spec fn label_entries(stmts: Seq<StmtModel>, k: int) -> Seq<(Seq<char>, nat)>
    decreases k,
{
    if k <= 0 {
        Seq::empty()
    } else {
        match stmts[k - 1] {
            StmtModel::Label(id) => label_entries(stmts, k - 1).push(
                (id, offset_at(stmts, k - 1)),
            ),
            _ => label_entries(stmts, k - 1),
        }
    }
}

/// Whether the entry at `j` repeats an earlier label name.
pub open spec fn dup_label_at(entries: Seq<(Seq<char>, nat)>, j: int) -> bool {
    exists|i: int| 0 <= i < j && (#[trigger] entries[i].0) == entries[j].0
}

/// Whether `j` indexes the first repeated label name.
pub open spec fn is_first_dup_label(entries: Seq<(Seq<char>, nat)>, j: int) -> bool {
    &&& 0 <= j < entries.len()
    &&& dup_label_at(entries, j)
    &&& forall|j2: int| 0 <= j2 < j ==> !dup_label_at(entries, j2)
}

/// Whether some label name repeats.
pub open spec fn has_dup_label(entries: Seq<(Seq<char>, nat)>) -> bool {
    exists|j: int| 0 <= j < entries.len() && dup_label_at(entries, j)
}

/// Whether the table defines a label of this name.
pub open spec fn label_defined(entries: Seq<(Seq<char>, nat)>, id: Seq<char>) -> bool {
    exists|i: int| 0 <= i < entries.len() && (#[trigger] entries[i].0) == id
}

/// The offset of the first table entry of this name.
pub open spec fn lookup_label(entries: Seq<(Seq<char>, nat)>, id: Seq<char>) -> nat
    decreases entries.len(),
{
    if entries.len() == 0 {
        0
    } else if entries[0].0 == id {
        entries[0].1
    } else {
        lookup_label(entries.drop_first(), id)
    }
}

/// Whether a target resolves against the table.
pub open spec fn target_ok(entries: Seq<(Seq<char>, nat)>, t: TargetModel) -> bool {
    match t {
        TargetModel::Next => true,
        TargetModel::Name(id) => label_defined(entries, id),
    }
}

/// Whether every target of a statement resolves.
pub open spec fn stmt_targets_ok(entries: Seq<(Seq<char>, nat)>, s: StmtModel) -> bool {
    match s {
        StmtModel::Jmp(t, f) => target_ok(entries, t) && target_ok(entries, f),
        _ => true,
    }
}

/// The target a resolution failure reports: the true branch when it is the
/// one that fails, else the false branch.
pub open spec fn bad_target_of(entries: Seq<(Seq<char>, nat)>, s: StmtModel) -> TargetModel {
    match s {
        StmtModel::Jmp(t, f) => if !target_ok(entries, t) {
            t
        } else {
            f
        },
        _ => TargetModel::Next,
    }
}

/// Whether `k` indexes the first statement with an unresolvable target.
pub open spec fn is_first_bad_stmt(
    entries: Seq<(Seq<char>, nat)>,
    stmts: Seq<StmtModel>,
    k: int,
) -> bool {
    &&& 0 <= k < stmts.len()
    &&& !stmt_targets_ok(entries, stmts[k])
    &&& forall|k2: int| 0 <= k2 < k ==> stmt_targets_ok(entries, #[trigger] stmts[k2])
}

/// The resolved offset of a target: the next offset for fall-through, else
/// the table entry of the named label.
pub open spec fn resolve_target(entries: Seq<(Seq<char>, nat)>, next: nat, t: TargetModel) -> nat {
    match t {
        TargetModel::Next => next,
        TargetModel::Name(id) => lookup_label(entries, id),
    }
}

/// The instructions the first `k` statements resolve to.
pub open spec fn resolve_upto(
    entries: Seq<(Seq<char>, nat)>,
    stmts: Seq<StmtModel>,
    k: int,
) -> Seq<Insn>
    decreases k,
{
    if k <= 0 {
        Seq::empty()
    } else {
        let prev = resolve_upto(entries, stmts, k - 1);
        match stmts[k - 1] {
            StmtModel::Label(_) => prev,
            StmtModel::Write(op) => prev.push(Insn::Write(op)),
            StmtModel::Seek(op) => prev.push(Insn::Seek(op)),
            StmtModel::Io(op) => prev.push(Insn::Io(op)),
            StmtModel::Debug => prev.push(Insn::Debug),
            StmtModel::Jmp(t, f) => {
                let next = offset_at(stmts, k - 1) + 1;
                prev.push(
                    Insn::Jmp(
                        resolve_target(entries, next, t) as usize,
                        resolve_target(entries, next, f) as usize,
                    ),
                )
            },
        }
    }
}

/// Statements resolve if and only if no label repeats and every jump
/// target is declared.
pub open spec fn resolvable(stmts: Seq<StmtModel>) -> bool {
    let entries = label_entries(stmts, stmts.len() as int);
    &&& !has_dup_label(entries)
    &&& forall|k: int| 0 <= k < stmts.len() ==> stmt_targets_ok(entries, #[trigger] stmts[k])
}

proof fn lemma_label_entries_prefix(stmts: Seq<StmtModel>, k1: int, k2: int)
    requires
        0 <= k1 <= k2,
    ensures
        label_entries(stmts, k1).len() <= label_entries(stmts, k2).len(),
        forall|i: int|
            0 <= i < label_entries(stmts, k1).len() ==> (#[trigger] label_entries(stmts, k2)[i])
                == label_entries(stmts, k1)[i],
    decreases k2 - k1,
{
    if k1 < k2 {
        lemma_label_entries_prefix(stmts, k1, k2 - 1);
    }
}

proof fn lemma_offset_at_bound(stmts: Seq<StmtModel>, k: int)
    requires
        k >= 0,
    ensures
        offset_at(stmts, k) <= k,
    decreases k,
{
    if k > 0 {
        lemma_offset_at_bound(stmts, k - 1);
    }
}

proof fn lemma_resolve_upto_len(entries: Seq<(Seq<char>, nat)>, stmts: Seq<StmtModel>, k: int)
    ensures
        resolve_upto(entries, stmts, k).len() == offset_at(stmts, k),
    decreases k,
{
    if k > 0 {
        lemma_resolve_upto_len(entries, stmts, k - 1);
    }
}

proof fn lemma_lookup_label_at(entries: Seq<(Seq<char>, nat)>, id: Seq<char>, i: int)
    requires
        0 <= i < entries.len(),
        entries[i].0 == id,
        forall|k: int| 0 <= k < i ==> (#[trigger] entries[k].0) != id,
    ensures
        lookup_label(entries, id) == entries[i].1,
    decreases entries.len(),
{
    if i > 0 {
        assert(entries.drop_first()[i - 1] == entries[i]);
        assert forall|k: int| 0 <= k < i - 1 implies (#[trigger] entries.drop_first()[k].0)
            != id by {
            assert(entries.drop_first()[k] == entries[k + 1]);
        }
        lemma_lookup_label_at(entries.drop_first(), id, i - 1);
    }
}

fn lookup_label_offset(table: &LabelMap, id: &LabelId) -> (r: Option<InsnOffset>)
    ensures
        match r {
            Some(off) => label_defined(labels_model(table@), id@) && off as nat == lookup_label(
                labels_model(table@),
                id@,
            ),
            None => !label_defined(labels_model(table@), id@),
        },
{
    let ghost entries = labels_model(table@);
    let n = table.len();
    let mut i: usize = 0;
    while i < n
        invariant
            n == table@.len(),
            entries == labels_model(table@),
            i <= n,
            forall|k: int| 0 <= k < i ==> (#[trigger] entries[k].0) != id@,
        decreases n - i,
    {
        if table[i].0 == *id {
            proof {
                assert(entries[i as int].0 == id@);
                lemma_lookup_label_at(entries, id@, i as int);
            }
            return Some(table[i].1);
        }
        i += 1;
    }
    proof {
        if label_defined(entries, id@) {
            let k = choose|k: int| 0 <= k < entries.len() && entries[k].0 == id@;
            assert(false);
        }
    }
    None
}

/// Resolves one jump target against the table: the next offset for fall
/// through, the declared offset for a name, or the resolution failure.
fn resolve_one(table: &LabelMap, next: InsnOffset, t: &Target) -> (r: Result<InsnOffset, MachErr>)
    ensures
        match r {
            Ok(off) => target_ok(labels_model(table@), t@) && off as nat == resolve_target(
                labels_model(table@),
                next as nat,
                t@,
            ),
            Err(MachErr::UnknownTarget { target }) => !target_ok(labels_model(table@), t@)
                && target@ == t@,
            Err(_) => false,
        },
{
    match t {
        Target::NextAddress => Ok(next),
        Target::Name(id) => match lookup_label_offset(table, id) {
            Some(off) => Ok(off),
            None => Err(MachErr::UnknownTarget { target: Target::Name(id.clone()) }),
        },
    }
}

impl Program {
    /// Resolves a statement list: builds the label table, failing on a
    /// repeated label, then replaces every named jump target by its
    /// absolute offset, failing on an undeclared name; a fall-through
    /// target becomes the offset of the next instruction.
    pub fn from_statements(statements: &Vec<Stmt>) -> (r: Result<Program, MachErr>)
        ensures
            ({
                let stmts = stmts_model(statements@);
                let entries = label_entries(stmts, stmts.len() as int);
                match r {
                    Ok(prog) => {
                        &&& resolvable(stmts)
                        &&& prog.instructions@ == resolve_upto(entries, stmts, stmts.len() as int)
                        &&& labels_model(prog.labels@) == entries
                    },
                    Err(MachErr::DuplicateLabel { label }) => {
                        &&& has_dup_label(entries)
                        &&& exists|j: int| #[trigger] is_first_dup_label(entries, j) && label@
                            == entries[j].0
                    },
                    Err(MachErr::UnknownTarget { target }) => {
                        &&& !has_dup_label(entries)
                        &&& exists|k: int| #[trigger] is_first_bad_stmt(entries, stmts, k)
                            && target@ == bad_target_of(entries, stmts[k])
                    },
                    Err(MachErr::InvalidRule { .. }) => false,
                    Err(MachErr::GeneralError { .. }) => false,
                }
            }),
            r is Ok <==> resolvable(stmts_model(statements@)),
    {
        let ghost stmts = stmts_model(statements@);
        let ghost entries = label_entries(stmts, stmts.len() as int);
        let n = statements.len();

        let mut jmp_table: LabelMap = Vec::new();
        let mut offset: usize = 0;
        let mut k: usize = 0;
        while k < n
            invariant
                n == statements@.len(),
                stmts == stmts_model(statements@),
                entries == label_entries(stmts, stmts.len() as int),
                k <= n,
                offset as nat == offset_at(stmts, k as int),
                labels_model(jmp_table@) == label_entries(stmts, k as int),
                forall|j: int| 0 <= j < labels_model(jmp_table@).len() ==> !dup_label_at(
                    label_entries(stmts, k as int),
                    j,
                ),
            decreases n - k,
        {
            match &statements[k] {
                Stmt::Label(id) => {
                    let ghost prefix = label_entries(stmts, k as int);
                    match lookup_label_offset(&jmp_table, id) {
                        Some(_) => {
                            proof {
                                let j = prefix.len() as int;
                                lemma_label_entries_prefix(stmts, k as int + 1, stmts.len() as int);
                                assert(label_entries(stmts, k as int + 1) == prefix.push(
                                    (id@, offset_at(stmts, k as int)),
                                ));
                                assert(entries[j] == (id@, offset_at(stmts, k as int)));
                                let i = choose|i: int|
                                    0 <= i < prefix.len() && (#[trigger] prefix[i].0) == id@;
                                assert(entries[i] == prefix[i]);
                                assert(dup_label_at(entries, j));
                                assert forall|j2: int| 0 <= j2 < j implies !dup_label_at(
                                    entries,
                                    j2,
                                ) by {
                                    if dup_label_at(entries, j2) {
                                        let i2 = choose|i2: int|
                                            0 <= i2 < j2 && (#[trigger] entries[i2].0)
                                                == entries[j2].0;
                                        assert(entries[j2] == prefix[j2]);
                                        assert(entries[i2] == prefix[i2]);
                                        assert(dup_label_at(prefix, j2));
                                    }
                                }
                                assert(is_first_dup_label(entries, j));
                            }
                            return Err(MachErr::DuplicateLabel { label: id.clone() });
                        },
                        None => {
                            jmp_table.push((id.clone(), offset));
                            proof {
                                assert(labels_model(jmp_table@) =~= label_entries(
                                    stmts,
                                    k as int + 1,
                                ));
                                let prefix1 = label_entries(stmts, k as int + 1);
                                assert forall|j: int|
                                    0 <= j < prefix1.len() implies !dup_label_at(prefix1, j) by {
                                    if dup_label_at(prefix1, j) {
                                        let i = choose|i: int|
                                            0 <= i < j && (#[trigger] prefix1[i].0)
                                                == prefix1[j].0;
                                        if j < prefix.len() {
                                            assert(prefix1[i] == prefix[i]);
                                            assert(prefix1[j] == prefix[j]);
                                            assert(dup_label_at(prefix, j));
                                        } else {
                                            assert(prefix1[j].0 == id@);
                                            assert(prefix1[i] == prefix[i]);
                                            assert(label_defined(prefix, id@));
                                        }
                                    }
                                }
                            }
                        },
                    }
                },
                _ => {
                    proof {
                        assert(!(stmts[k as int] is Label));
                        lemma_offset_at_bound(stmts, k as int);
                    }
                    offset += 1;
                },
            }
            k += 1;
        }

        proof {
            assert(labels_model(jmp_table@) == entries);
            assert forall|j: int| 0 <= j < entries.len() implies !dup_label_at(entries, j) by {}
            assert(!has_dup_label(entries));
        }

        let mut insns: Vec<Insn> = Vec::new();
        let mut k2: usize = 0;
        while k2 < n
            invariant
                n == statements@.len(),
                stmts == stmts_model(statements@),
                entries == label_entries(stmts, stmts.len() as int),
                labels_model(jmp_table@) == entries,
                !has_dup_label(entries),
                k2 <= n,
                insns@ == resolve_upto(entries, stmts, k2 as int),
                forall|j: int| 0 <= j < k2 ==> stmt_targets_ok(entries, #[trigger] stmts[j]),
            decreases n - k2,
        {
            proof {
                lemma_resolve_upto_len(entries, stmts, k2 as int);
                lemma_offset_at_bound(stmts, k2 as int);
            }
            match &statements[k2] {
                Stmt::Label(_) => {},
                Stmt::Write(op) => {
                    insns.push(Insn::Write(*op));
                },
                Stmt::Seek(op) => {
                    insns.push(Insn::Seek(*op));
                },
                Stmt::Io(op) => {
                    insns.push(Insn::Io(*op));
                },
                Stmt::Debug => {
                    insns.push(Insn::Debug);
                },
                Stmt::Jmp(branch_t, branch_f) => {
                    let next = insns.len() + 1;
                    let t = match resolve_one(&jmp_table, next, branch_t) {
                        Ok(off) => off,
                        Err(e) => {
                            proof {
                                assert(stmts[k2 as int] == StmtModel::Jmp(branch_t@, branch_f@));
                                assert(is_first_bad_stmt(entries, stmts, k2 as int));
                            }
                            return Err(e);
                        },
                    };
                    let f = match resolve_one(&jmp_table, next, branch_f) {
                        Ok(off) => off,
                        Err(e) => {
                            proof {
                                assert(stmts[k2 as int] == StmtModel::Jmp(branch_t@, branch_f@));
                                assert(is_first_bad_stmt(entries, stmts, k2 as int));
                            }
                            return Err(e);
                        },
                    };
                    insns.push(Insn::Jmp(t, f));
                },
            }
            proof {
                assert(insns@ =~= resolve_upto(entries, stmts, k2 as int + 1));
            }
            k2 += 1;
        }

        Ok(Program { instructions: insns, labels: jmp_table })
    }
}

/// Whether a byte may occur in a label name: a letter, a digit, an
/// apostrophe or an underscore.
pub open spec fn is_label_id_spec(input: u8) -> bool {
    ||| (97 <= input <= 122)  // 'a' ..= 'z'
    ||| (65 <= input <= 90)  // 'A' ..= 'Z'
    ||| (48 <= input <= 57)  // '0' ..= '9'
    ||| input == 39  // '\''
    ||| input == 95  // '_'
}

/// True for the bytes a label name may hold.
pub fn is_label_id(input: u8) -> (r: bool)
    ensures
        r == is_label_id_spec(input),
{
    (input >= 97 && input <= 122) || (input >= 65 && input <= 90) || (input >= 48 && input <= 57)
        || input == 39 || input == 95
}

} // verus!
