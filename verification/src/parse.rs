//! The bit-machine source text: whitespace and comment trivia, the seven
//! one-character mnemonics, label declarations and jumps, parsed into
//! statements.

use vstd::prelude::*;
use crate::mach::{
    is_label_id_spec,
    IoOp,
    MachErr,
    SeekOp,
    Stmt,
    StmtModel,
    Target,
    TargetModel,
    WriteOp,
};
use crate::mach::{is_label_id, stmts_model};
use crate::mach::{
    bad_target_of,
    has_dup_label,
    is_first_bad_stmt,
    is_first_dup_label,
    label_entries,
    labels_model,
    resolvable,
    resolve_upto,
    Program,
};
use crate::text::{bytes_string, chars_of_bytes};

verus! {

/// Whether a byte is source whitespace.
pub open spec fn is_ws_byte(b: u8) -> bool {
    b == 32 || b == 9 || b == 10 || b == 13 || b == 12
}

/// The position just past the `*/` that closes a comment opened before
/// `j`, or nothing when the comment never closes.
pub open spec fn comment_end(s: Seq<u8>, j: int) -> Option<int>
    decreases s.len() - j,
{
    if j + 1 >= s.len() {
        None
    } else if s[j] == 42 && s[j + 1] == 47 {
        Some(j + 2)
    } else {
        comment_end(s, j + 1)
    }
}

proof fn lemma_comment_end_bounds(s: Seq<u8>, j: int)
    requires
        0 <= j,
    ensures
        comment_end(s, j) matches Some(k) ==> j + 2 <= k <= s.len(),
    decreases s.len() - j,
{
    if j + 1 < s.len() && !(s[j] == 42 && s[j + 1] == 47) {
        lemma_comment_end_bounds(s, j + 1);
    }
}

/// The first position at or after `i` holding neither whitespace nor a
/// comment, or nothing when a comment never closes.
pub open spec fn skip_trivia(s: Seq<u8>, i: int) -> Option<int>
    decreases s.len() - i,
    when 0 <= i <= s.len()
    via skip_trivia_dec
{
    if i >= s.len() {
        Some(i)
    } else if is_ws_byte(s[i]) {
        skip_trivia(s, i + 1)
    } else if s[i] == 47 && i + 1 < s.len() && s[i + 1] == 42 {
        match comment_end(s, i + 2) {
            None => None,
            Some(k) => skip_trivia(s, k),
        }
    } else {
        Some(i)
    }
}

#[via_fn]
proof fn skip_trivia_dec(s: Seq<u8>, i: int) {
    if 0 <= i < s.len() && s[i] == 47 && i + 1 < s.len() && s[i + 1] == 42 {
        lemma_comment_end_bounds(s, i + 2);
    }
}

proof fn lemma_skip_trivia_bounds(s: Seq<u8>, i: int)
    requires
        0 <= i <= s.len(),
    ensures
        skip_trivia(s, i) matches Some(j) ==> i <= j <= s.len(),
    decreases s.len() - i,
{
    if i < s.len() {
        if is_ws_byte(s[i]) {
            lemma_skip_trivia_bounds(s, i + 1);
        } else if s[i] == 47 && i + 1 < s.len() && s[i + 1] == 42 {
            lemma_comment_end_bounds(s, i + 2);
            match comment_end(s, i + 2) {
                None => {},
                Some(k) => {
                    lemma_skip_trivia_bounds(s, k);
                },
            }
        }
    }
}

/// The first position at or after `i` whose byte cannot sit in a label
/// name.
pub open spec fn word_end(s: Seq<u8>, i: int) -> int
    decreases s.len() - i,
{
    if i >= s.len() {
        i
    } else if is_label_id_spec(s[i]) {
        word_end(s, i + 1)
    } else {
        i
    }
}

proof fn lemma_word_end_bounds(s: Seq<u8>, i: int)
    requires
        0 <= i <= s.len(),
    ensures
        i <= word_end(s, i) <= s.len(),
    decreases s.len() - i,
{
    if i < s.len() && is_label_id_spec(s[i]) {
        lemma_word_end_bounds(s, i + 1);
    }
}

/// The first position at or after `i` holding no whitespace.
pub open spec fn skip_ws(s: Seq<u8>, i: int) -> int
    decreases s.len() - i,
{
    if i >= s.len() {
        i
    } else if is_ws_byte(s[i]) {
        skip_ws(s, i + 1)
    } else {
        i
    }
}

proof fn lemma_skip_ws_bounds(s: Seq<u8>, i: int)
    requires
        0 <= i <= s.len(),
    ensures
        i <= skip_ws(s, i) <= s.len(),
    decreases s.len() - i,
{
    if i < s.len() && is_ws_byte(s[i]) {
        lemma_skip_ws_bounds(s, i + 1);
    }
}

/// Prepends a statement to a parse that may have failed.
pub open spec fn parse_cons(st: StmtModel, rest: Option<Seq<StmtModel>>) -> Option<
    Seq<StmtModel>,
> {
    match rest {
        None => None,
        Some(r) => Some(seq![st] + r),
    }
}

/// The statements the source denotes from position `i` on, or nothing on
/// a syntax error: after trivia comes a one-character mnemonic, a label
/// declaration `name:`, or `jmp` with one target and an optional second
/// after a comma.
pub open spec fn parse_from(s: Seq<u8>, i: int) -> Option<Seq<StmtModel>>
    decreases s.len() - i,
    when 0 <= i <= s.len()
    via parse_from_dec
{
    match skip_trivia(s, i) {
        None => None,
        Some(j) => {
            if j >= s.len() {
                Some(Seq::empty())
            } else if s[j] == 43 {  // '+'
                parse_cons(StmtModel::Write(WriteOp::SetBit), parse_from(s, j + 1))
            } else if s[j] == 45 {  // '-'
                parse_cons(StmtModel::Write(WriteOp::UnsetBit), parse_from(s, j + 1))
            } else if s[j] == 60 {  // '<'
                parse_cons(StmtModel::Seek(SeekOp::Left), parse_from(s, j + 1))
            } else if s[j] == 62 {  // '>'
                parse_cons(StmtModel::Seek(SeekOp::Right), parse_from(s, j + 1))
            } else if s[j] == 44 {  // ','
                parse_cons(StmtModel::Io(IoOp::In), parse_from(s, j + 1))
            } else if s[j] == 46 {  // '.'
                parse_cons(StmtModel::Io(IoOp::Out), parse_from(s, j + 1))
            } else if s[j] == 33 {  // '!'
                parse_cons(StmtModel::Debug, parse_from(s, j + 1))
            } else if is_label_id_spec(s[j]) {
                let e = word_end(s, j);
                let word = chars_of_bytes(s.subrange(j, e));
                if e < s.len() && s[e] == 58 {  // ':'
                    parse_cons(StmtModel::Label(word), parse_from(s, e + 1))
                } else if word == "jmp"@ {
                    let ts = skip_ws(s, e);
                    let te = word_end(s, ts);
                    if te == ts {
                        None
                    } else {
                        let true_branch = TargetModel::Name(chars_of_bytes(s.subrange(ts, te)));
                        let cs = skip_ws(s, te);
                        if cs < s.len() && s[cs] == 44 {  // ','
                            let fs = skip_ws(s, cs + 1);
                            let fe = word_end(s, fs);
                            if fe == fs {
                                None
                            } else {
                                parse_cons(
                                    StmtModel::Jmp(
                                        true_branch,
                                        TargetModel::Name(chars_of_bytes(s.subrange(fs, fe))),
                                    ),
                                    parse_from(s, fe),
                                )
                            }
                        } else {
                            parse_cons(
                                StmtModel::Jmp(true_branch, TargetModel::Next),
                                parse_from(s, te),
                            )
                        }
                    }
                } else {
                    None
                }
            } else {
                None
            }
        },
    }
}

#[via_fn]
proof fn parse_from_dec(s: Seq<u8>, i: int) {
    lemma_skip_trivia_bounds(s, i);
    match skip_trivia(s, i) {
        None => {},
        Some(j) => {
            if 0 <= j < s.len() {
                lemma_word_end_bounds(s, j);
                let e = word_end(s, j);
                if is_label_id_spec(s[j]) {
                    lemma_word_end_bounds(s, j + 1);
                    assert(e == word_end(s, j + 1));
                    assert(e >= j + 1);
                }
                lemma_skip_ws_bounds(s, e);
                let ts = skip_ws(s, e);
                lemma_word_end_bounds(s, ts);
                let te = word_end(s, ts);
                lemma_skip_ws_bounds(s, te);
                let cs = skip_ws(s, te);
                if cs + 1 <= s.len() {
                    lemma_skip_ws_bounds(s, cs + 1);
                    let fs = skip_ws(s, cs + 1);
                    lemma_word_end_bounds(s, fs);
                }
            }
        },
    }
}

/// The statements a whole source text denotes, or nothing on a syntax
/// error.
pub open spec fn parse_spec(s: Seq<u8>) -> Option<Seq<StmtModel>> {
    parse_from(s, 0)
}

fn comment_end_pos(s: &[u8], j: usize) -> (r: Option<usize>)
    requires
        j <= s@.len(),
    ensures
        match r {
            Some(k) => comment_end(s@, j as int) == Some(k as int) && j + 2 <= k <= s@.len(),
            None => comment_end(s@, j as int) is None,
        },
{
    let n = s.len();
    let mut k: usize = j;
    while n - k > 1
        invariant
            n == s@.len(),
            j <= k <= n,
            comment_end(s@, j as int) == comment_end(s@, k as int),
        decreases n - k,
    {
        if s[k] == 42 && s[k + 1] == 47 {
            return Some(k + 2);
        }
        k += 1;
    }
    None
}

fn skip_trivia_pos(s: &[u8], i: usize) -> (r: Option<usize>)
    requires
        i <= s@.len(),
    ensures
        match r {
            Some(j) => skip_trivia(s@, i as int) == Some(j as int) && i <= j <= s@.len(),
            None => skip_trivia(s@, i as int) is None,
        },
{
    let n = s.len();
    let mut k: usize = i;
    while k < n
        invariant
            n == s@.len(),
            i <= k <= n,
            skip_trivia(s@, i as int) == skip_trivia(s@, k as int),
        decreases n - k,
    {
        let b = s[k];
        if b == 32 || b == 9 || b == 10 || b == 13 || b == 12 {
            k += 1;
        } else if b == 47 && k + 1 < n && s[k + 1] == 42 {
            match comment_end_pos(s, k + 2) {
                None => {
                    return None;
                },
                Some(k2) => {
                    k = k2;
                },
            }
        } else {
            return Some(k);
        }
    }
    Some(k)
}

fn word_end_pos(s: &[u8], i: usize) -> (r: usize)
    requires
        i <= s@.len(),
    ensures
        r as int == word_end(s@, i as int),
        i <= r <= s@.len(),
{
    let n = s.len();
    let mut k: usize = i;
    while k < n && is_label_id(s[k])
        invariant
            n == s@.len(),
            i <= k <= n,
            word_end(s@, i as int) == word_end(s@, k as int),
        decreases n - k,
    {
        k += 1;
    }
    k
}

fn skip_ws_pos(s: &[u8], i: usize) -> (r: usize)
    requires
        i <= s@.len(),
    ensures
        r as int == skip_ws(s@, i as int),
        i <= r <= s@.len(),
{
    let n = s.len();
    let mut k: usize = i;
    while k < n && (s[k] == 32 || s[k] == 9 || s[k] == 10 || s[k] == 13 || s[k] == 12)
        invariant
            n == s@.len(),
            i <= k <= n,
            skip_ws(s@, i as int) == skip_ws(s@, k as int),
        decreases n - k,
    {
        k += 1;
    }
    k
}

/// The syntax failure every unparsable source reports.
fn syntax_error() -> (r: MachErr)
    ensures
        r is GeneralError,
{
    MachErr::GeneralError { message: "syntax error in source text".to_owned() }
}

/// One parsed statement moves the frontier from `k0` to `k1`.
proof fn lemma_parse_step(
    s: Seq<u8>,
    k0: int,
    k1: int,
    st: StmtModel,
    pre: Seq<StmtModel>,
    post: Seq<StmtModel>,
)
    requires
        parse_from(s, k0) == parse_cons(st, parse_from(s, k1)),
        post == pre + seq![st],
        match parse_from(s, k0) {
            Some(rest) => parse_from(s, 0) == Some(pre + rest),
            None => parse_from(s, 0) is None,
        },
    ensures
        match parse_from(s, k1) {
            Some(rest) => parse_from(s, 0) == Some(post + rest),
            None => parse_from(s, 0) is None,
        },
{
    match parse_from(s, k1) {
        Some(rest) => {
            assert(parse_from(s, k0) == Some(seq![st] + rest));
            assert(pre + (seq![st] + rest) =~= post + rest);
        },
        None => {},
    }
}

/// Parses a whole source text into statements, or fails on the first
/// byte that fits no statement and on an unterminated comment.
pub fn parse_statements(src: &[u8]) -> (r: Result<Vec<Stmt>, MachErr>)
    ensures
        match parse_spec(src@) {
            Some(m) => r matches Ok(v) && stmts_model(v@) == m,
            None => r matches Err(e) && e is GeneralError,
        },
        r is Ok <==> parse_spec(src@) is Some,
{
    let n = src.len();
    let mut stmts: Vec<Stmt> = Vec::new();
    let mut k: usize = 0;
    proof {
        assert(stmts_model(stmts@) =~= Seq::<StmtModel>::empty());
    }
    loop
        invariant
            n == src@.len(),
            k <= n,
            ({
                match parse_from(src@, k as int) {
                    Some(rest) => parse_from(src@, 0) == Some(stmts_model(stmts@) + rest),
                    None => parse_from(src@, 0) is None,
                }
            }),
        decreases n - k,
    {
        let ghost k0 = k as int;
        let ghost pre = stmts_model(stmts@);
        let j = match skip_trivia_pos(src, k) {
            Some(j) => j,
            None => {
                return Err(syntax_error());
            },
        };
        if j >= n {
            proof {
                assert(parse_from(src@, k0) == Some(Seq::<StmtModel>::empty()));
                assert(pre + Seq::<StmtModel>::empty() =~= pre);
            }
            return Ok(stmts);
        }
        let b = src[j];
        if b == 43 || b == 45 || b == 60 || b == 62 || b == 44 || b == 46 || b == 33 {
            let st = if b == 43 {
                Stmt::Write(WriteOp::SetBit)
            } else if b == 45 {
                Stmt::Write(WriteOp::UnsetBit)
            } else if b == 60 {
                Stmt::Seek(SeekOp::Left)
            } else if b == 62 {
                Stmt::Seek(SeekOp::Right)
            } else if b == 44 {
                Stmt::Io(IoOp::In)
            } else if b == 46 {
                Stmt::Io(IoOp::Out)
            } else {
                Stmt::Debug
            };
            let ghost stm = st@;
            stmts.push(st);
            k = j + 1;
            proof {
                assert(stmts_model(stmts@) =~= pre + seq![stm]);
                assert(parse_from(src@, k0) == parse_cons(stm, parse_from(src@, k as int)));
                lemma_parse_step(src@, k0, k as int, stm, pre, stmts_model(stmts@));
            }
        } else if is_label_id(b) {
            let e = word_end_pos(src, j);
            if e < n && src[e] == 58 {
                let label = bytes_string(src, j, e);
                let ghost stm = StmtModel::Label(label@);
                stmts.push(Stmt::Label(label));
                k = e + 1;
                proof {
                    assert(stmts_model(stmts@) =~= pre + seq![stm]);
                    assert(parse_from(src@, k0) == parse_cons(stm, parse_from(src@, k as int)));
                    lemma_parse_step(src@, k0, k as int, stm, pre, stmts_model(stmts@));
                }
            } else if e - j == 3 && src[j] == 106 && src[j + 1] == 109 && src[j + 2] == 112 {
                proof {
                    reveal_strlit("jmp");
                    assert(chars_of_bytes(src@.subrange(j as int, e as int)) =~= "jmp"@);
                }
                let ts = skip_ws_pos(src, e);
                let te = word_end_pos(src, ts);
                if te == ts {
                    return Err(syntax_error());
                }
                let t1 = Target::Name(bytes_string(src, ts, te));
                let cs = skip_ws_pos(src, te);
                if cs < n && src[cs] == 44 {
                    let fs = skip_ws_pos(src, cs + 1);
                    let fe = word_end_pos(src, fs);
                    if fe == fs {
                        return Err(syntax_error());
                    }
                    let t2 = Target::Name(bytes_string(src, fs, fe));
                    let ghost stm = StmtModel::Jmp(t1@, t2@);
                    stmts.push(Stmt::Jmp(t1, t2));
                    k = fe;
                    proof {
                        assert(stmts_model(stmts@) =~= pre + seq![stm]);
                        assert(parse_from(src@, k0) == parse_cons(
                            stm,
                            parse_from(src@, k as int),
                        ));
                        lemma_parse_step(src@, k0, k as int, stm, pre, stmts_model(stmts@));
                    }
                } else {
                    let ghost stm = StmtModel::Jmp(t1@, TargetModel::Next);
                    stmts.push(Stmt::Jmp(t1, Target::NextAddress));
                    k = te;
                    proof {
                        assert(stmts_model(stmts@) =~= pre + seq![stm]);
                        assert(parse_from(src@, k0) == parse_cons(
                            stm,
                            parse_from(src@, k as int),
                        ));
                        lemma_parse_step(src@, k0, k as int, stm, pre, stmts_model(stmts@));
                    }
                }
            } else {
                proof {
                    reveal_strlit("jmp");
                    let word = chars_of_bytes(src@.subrange(j as int, word_end(src@, j as int)));
                    if word == "jmp"@ {
                        assert(word.len() == 3);
                        assert(word[0] == 'j' && word[1] == 'm' && word[2] == 'p');
                        assert(src@[j as int] == 106 && src@[j + 1] == 109 && src@[j + 2] == 112);
                    }
                }
                return Err(syntax_error());
            }
        } else {
            return Err(syntax_error());
        }
    }
}

impl Program {
    /// Parses bit-machine source text and resolves its labels in one
    /// step, as loading a source file does.
    pub fn from_text(src: &[u8]) -> (r: Result<Program, MachErr>)
        ensures
            ({
                match parse_spec(src@) {
                    None => r matches Err(e) && e is GeneralError,
                    Some(stmts) => {
                        let entries = label_entries(stmts, stmts.len() as int);
                        match r {
                            Ok(prog) => {
                                &&& resolvable(stmts)
                                &&& prog.instructions@ == resolve_upto(
                                    entries,
                                    stmts,
                                    stmts.len() as int,
                                )
                                &&& labels_model(prog.labels@) == entries
                            },
                            Err(MachErr::DuplicateLabel { label }) => {
                                &&& has_dup_label(entries)
                                &&& exists|j: int| #[trigger] is_first_dup_label(entries, j)
                                    && label@ == entries[j].0
                            },
                            Err(MachErr::UnknownTarget { target }) => {
                                &&& !has_dup_label(entries)
                                &&& exists|k: int| #[trigger] is_first_bad_stmt(entries, stmts, k)
                                    && target@ == bad_target_of(entries, stmts[k])
                            },
                            Err(MachErr::InvalidRule { .. }) => false,
                            Err(MachErr::GeneralError { .. }) => false,
                        }
                    },
                }
            }),
            r is Ok <==> (parse_spec(src@) is Some && resolvable(parse_spec(src@).unwrap())),
    {
        let statements = match parse_statements(src) {
            Ok(v) => v,
            Err(e) => {
                return Err(e);
            },
        };
        Program::from_statements(&statements)
    }
}

} // verus!
