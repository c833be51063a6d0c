//! The tag assembler: assigns each distinct symbol a dense numeric id and
//! serializes a program into the compact binary header+body format.

use vstd::prelude::*;
use vstd::arithmetic::power2::*;
use crate::tag::{Program, ProgramModel, RuleModel, RuleStyle, Series, Symbol, TagErr};
use crate::tag::series_model;

verus! {

/// A symbol's assigned numeric id.
pub type BinSymbol = u64;

/// The symbol table of one assembly run: each distinct symbol paired with
/// its dense id, in assignment order (the id equals the position).
pub type SymbolMap = Vec<(Symbol, BinSymbol)>;

/// The name sequence of every symbol of a symbol map, in id order.
pub open spec fn map_order(m: Seq<(Symbol, BinSymbol)>) -> Seq<Seq<char>> {
    m.map(|i: int, p: (Symbol, BinSymbol)| p.0@)
}

/// Ids are dense: the id stored at position `i` is `i`.
pub open spec fn map_ids_dense(m: Seq<(Symbol, BinSymbol)>) -> bool {
    forall|i: int| 0 <= i < m.len() ==> (#[trigger] m[i].1) == i as u64
}

/// Appends a symbol unless it is already present.
pub open spec fn add_sym(acc: Seq<Seq<char>>, s: Seq<char>) -> Seq<Seq<char>> {
    if acc.contains(s) {
        acc
    } else {
        acc.push(s)
    }
}

/// Appends the first `k` symbols of a series, each unless already present.
pub open spec fn add_series_upto(acc: Seq<Seq<char>>, a: Seq<Seq<char>>, k: int) -> Seq<Seq<char>>
    decreases k,
{
    if k <= 0 {
        acc
    } else {
        add_sym(add_series_upto(acc, a, k - 1), a[k - 1])
    }
}

/// Appends every symbol of a series, each unless already present.
pub open spec fn add_series(acc: Seq<Seq<char>>, a: Seq<Seq<char>>) -> Seq<Seq<char>> {
    add_series_upto(acc, a, a.len() as int)
}

/// Every symbol a rule body appends, in order; the two appendants of an
/// input rule come false-branch first.
pub open spec fn appendant_syms(r: RuleModel) -> Seq<Seq<char>> {
    match r {
        RuleModel::Pure(a) => a,
        RuleModel::Input(a0, a1) => a0 + a1,
        RuleModel::Output(a, _) => a,
    }
}

/// The distinct start symbols of the first `j` rules, in first-seen order.
pub open spec fn key_pass(rules: Seq<(Seq<char>, RuleModel)>, j: int) -> Seq<Seq<char>>
    decreases j,
{
    if j <= 0 {
        Seq::empty()
    } else {
        add_sym(key_pass(rules, j - 1), rules[j - 1].0)
    }
}

/// After all keys, the appendant symbols of the first `j` rules.
pub open spec fn app_pass(rules: Seq<(Seq<char>, RuleModel)>, j: int) -> Seq<Seq<char>>
    decreases j,
{
    if j <= 0 {
        key_pass(rules, rules.len() as int)
    } else {
        add_series(app_pass(rules, j - 1), appendant_syms(rules[j - 1].1))
    }
}

/// Every distinct symbol of a program in assignment order: rule keys first,
/// then appendant symbols rule by rule, then the queue.
pub open spec fn symbol_order(p: ProgramModel) -> Seq<Seq<char>> {
    add_series(app_pass(p.rules, p.rules.len() as int), p.queue)
}

/// Whether a symbol occurs anywhere in a program: as a rule key, inside an
/// appendant, or in the queue.
pub open spec fn mentions(p: ProgramModel, x: Seq<char>) -> bool {
    ||| exists|j: int| 0 <= j < p.rules.len() && (#[trigger] p.rules[j].0) == x
    ||| exists|j: int| 0 <= j < p.rules.len() && (#[trigger] appendant_syms(p.rules[j].1)).contains(
        x,
    )
    ||| p.queue.contains(x)
}

/// No symbol occurs twice.
pub open spec fn distinct_syms(s: Seq<Seq<char>>) -> bool {
    forall|i: int, j: int| 0 <= i < j < s.len() ==> (#[trigger] s[i]) != (#[trigger] s[j])
}

proof fn lemma_add_sym_contains(acc: Seq<Seq<char>>, s: Seq<char>, x: Seq<char>)
    ensures
        add_sym(acc, s).contains(x) <==> (acc.contains(x) || x == s),
{
    if !acc.contains(s) {
        assert(acc.push(s)[acc.len() as int] == s);
        if acc.contains(x) {
            let i = choose|i: int| 0 <= i < acc.len() && acc[i] == x;
            assert(acc.push(s)[i] == x);
        }
        if add_sym(acc, s).contains(x) && x != s {
            let i = choose|i: int| 0 <= i < acc.push(s).len() && acc.push(s)[i] == x;
            assert(acc[i] == x);
        }
    }
}

proof fn lemma_add_sym_distinct(acc: Seq<Seq<char>>, s: Seq<char>)
    requires
        distinct_syms(acc),
    ensures
        distinct_syms(add_sym(acc, s)),
{
    if !acc.contains(s) {
        assert forall|i: int, j: int|
            0 <= i < j < add_sym(acc, s).len() implies (#[trigger] add_sym(acc, s)[i])
            != (#[trigger] add_sym(acc, s)[j]) by {
            if j == acc.len() as int {
                assert(add_sym(acc, s)[j] == s);
                assert(add_sym(acc, s)[i] == acc[i]);
                assert(acc.contains(acc[i]));
            } else {
                assert(add_sym(acc, s)[i] == acc[i]);
                assert(add_sym(acc, s)[j] == acc[j]);
            }
        }
    }
}

proof fn lemma_add_series_upto_contains(acc: Seq<Seq<char>>, a: Seq<Seq<char>>, k: int, x: Seq<
    char,
>)
    requires
        k <= a.len(),
    ensures
        add_series_upto(acc, a, k).contains(x) <==> (acc.contains(x) || exists|i: int|
            0 <= i < k && a[i] == x),
    decreases k,
{
    if k <= 0 {
    } else {
        lemma_add_series_upto_contains(acc, a, k - 1, x);
        lemma_add_sym_contains(add_series_upto(acc, a, k - 1), a[k - 1], x);
    }
}

proof fn lemma_add_series_upto_distinct(acc: Seq<Seq<char>>, a: Seq<Seq<char>>, k: int)
    requires
        distinct_syms(acc),
    ensures
        distinct_syms(add_series_upto(acc, a, k)),
    decreases k,
{
    if k > 0 {
        lemma_add_series_upto_distinct(acc, a, k - 1);
        lemma_add_sym_distinct(add_series_upto(acc, a, k - 1), a[k - 1]);
    }
}

proof fn lemma_key_pass_contains(rules: Seq<(Seq<char>, RuleModel)>, j: int, x: Seq<char>)
    requires
        j <= rules.len(),
    ensures
        key_pass(rules, j).contains(x) <==> exists|i: int| 0 <= i < j && (#[trigger] rules[i].0)
            == x,
    decreases j,
{
    if j <= 0 {
    } else {
        lemma_key_pass_contains(rules, j - 1, x);
        lemma_add_sym_contains(key_pass(rules, j - 1), rules[j - 1].0, x);
    }
}

proof fn lemma_key_pass_distinct(rules: Seq<(Seq<char>, RuleModel)>, j: int)
    ensures
        distinct_syms(key_pass(rules, j)),
    decreases j,
{
    if j > 0 {
        lemma_key_pass_distinct(rules, j - 1);
        lemma_add_sym_distinct(key_pass(rules, j - 1), rules[j - 1].0);
    }
}

proof fn lemma_app_pass_contains(rules: Seq<(Seq<char>, RuleModel)>, j: int, x: Seq<char>)
    requires
        j <= rules.len(),
    ensures
        app_pass(rules, j).contains(x) <==> {
            ||| key_pass(rules, rules.len() as int).contains(x)
            ||| exists|i: int| 0 <= i < j && (#[trigger] appendant_syms(rules[i].1)).contains(x)
        },
    decreases j,
{
    if j <= 0 {
    } else {
        lemma_app_pass_contains(rules, j - 1, x);
        let a = appendant_syms(rules[j - 1].1);
        lemma_add_series_upto_contains(app_pass(rules, j - 1), a, a.len() as int, x);
        if exists|i: int| 0 <= i < a.len() && a[i] == x {
            assert(a.contains(x));
        }
        if a.contains(x) {
            let i = choose|i: int| 0 <= i < a.len() && a[i] == x;
            assert(exists|i2: int| 0 <= i2 < a.len() && a[i2] == x);
        }
    }
}

proof fn lemma_app_pass_distinct(rules: Seq<(Seq<char>, RuleModel)>, j: int)
    ensures
        distinct_syms(app_pass(rules, j)),
    decreases j,
{
    if j <= 0 {
        lemma_key_pass_distinct(rules, rules.len() as int);
    } else {
        lemma_app_pass_distinct(rules, j - 1);
        let a = appendant_syms(rules[j - 1].1);
        lemma_add_series_upto_distinct(app_pass(rules, j - 1), a, a.len() as int);
    }
}

/// The symbol table lists a symbol if and only if the program mentions it,
/// and lists no symbol twice.
pub proof fn lemma_symbol_order(p: ProgramModel)
    ensures
        forall|x: Seq<char>| #[trigger] symbol_order(p).contains(x) <==> mentions(p, x),
        distinct_syms(symbol_order(p)),
{
    let nr = p.rules.len() as int;
    lemma_app_pass_distinct(p.rules, nr);
    lemma_add_series_upto_distinct(app_pass(p.rules, nr), p.queue, p.queue.len() as int);
    assert forall|x: Seq<char>| #[trigger] symbol_order(p).contains(x) <==> mentions(p, x) by {
        lemma_add_series_upto_contains(app_pass(p.rules, nr), p.queue, p.queue.len() as int, x);
        lemma_app_pass_contains(p.rules, nr, x);
        lemma_key_pass_contains(p.rules, nr, x);
        if p.queue.contains(x) {
            let i = choose|i: int| 0 <= i < p.queue.len() && p.queue[i] == x;
            assert(exists|i2: int| 0 <= i2 < p.queue.len() && p.queue[i2] == x);
        }
        if exists|i: int| 0 <= i < p.queue.len() && p.queue[i] == x {
            assert(p.queue.contains(x));
        }
    }
}

/// Position of the first occurrence of `x`, or one step at a time past the
/// end when `x` is absent.
pub open spec fn first_index(order: Seq<Seq<char>>, x: Seq<char>) -> int
    decreases order.len(),
{
    if order.len() == 0 {
        0
    } else if order[0] == x {
        0
    } else {
        1 + first_index(order.drop_first(), x)
    }
}

pub proof fn lemma_first_index_at(order: Seq<Seq<char>>, x: Seq<char>, i: int)
    requires
        0 <= i < order.len(),
        order[i] == x,
        forall|k: int| 0 <= k < i ==> order[k] != x,
    ensures
        first_index(order, x) == i,
    decreases order.len(),
{
    if i > 0 {
        assert(order.drop_first()[i - 1] == x);
        assert forall|k: int| 0 <= k < i - 1 implies order.drop_first()[k] != x by {
            assert(order.drop_first()[k] == order[k + 1]);
        }
        lemma_first_index_at(order.drop_first(), x, i - 1);
    }
}

/// The number of bytes needed to hold the value `v`: the least `w >= 1`
/// with `2^(8w) > v`.
pub open spec fn bytes_for(v: nat) -> nat
    decreases v,
{
    if v < 256 {
        1
    } else {
        1 + bytes_for(v / 256)
    }
}

/// The symbol width of an assembly with `n` distinct symbols: the least
/// `w >= 1` with `2^(8w) > n - 1`, or zero when there is no symbol.
pub open spec fn width_spec(n: nat) -> nat {
    if n == 0 {
        0
    } else {
        bytes_for((n - 1) as nat)
    }
}

/// `bytes_for(v)` is the minimal byte count whose value range covers `v`.
pub proof fn lemma_bytes_for_minimal(v: nat)
    ensures
        bytes_for(v) >= 1,
        pow2(8 * bytes_for(v)) > v,
        bytes_for(v) > 1 ==> pow2((8 * (bytes_for(v) - 1)) as nat) <= v,
    decreases v,
{
    lemma2_to64();
    if v < 256 {
        assert(pow2(8) == 256);
    } else {
        let b = bytes_for(v / 256);
        lemma_bytes_for_minimal(v / 256);
        lemma_pow2_adds(8 * b, 8);
        assert(pow2((8 * (b + 1)) as nat) == pow2(8 * b) * 256);
        assert(pow2(8 * b) >= v / 256 + 1);
        assert((v / 256 + 1) * 256 > v) by (nonlinear_arith);
        assert(pow2(8 * b) * 256 >= (v / 256 + 1) * 256) by (nonlinear_arith)
            requires
                pow2(8 * b) >= v / 256 + 1,
        ;
        if b == 1 {
            assert(pow2((8 * (bytes_for(v) - 1)) as nat) == 256);
        } else {
            assert(pow2((8 * (b - 1)) as nat) <= v / 256);
            lemma_pow2_adds((8 * (b - 1)) as nat, 8);
            assert(pow2(8 * b) == pow2((8 * (b - 1)) as nat) * 256);
            assert(pow2((8 * (b - 1)) as nat) * 256 <= (v / 256) * 256) by (nonlinear_arith)
                requires
                    pow2((8 * (b - 1)) as nat) <= v / 256,
            ;
            assert((v / 256) * 256 <= v) by (nonlinear_arith);
        }
    }
}

proof fn lemma_bytes_for_small(v: nat, w: nat)
    requires
        w >= 1,
        v < pow2(8 * w),
    ensures
        bytes_for(v) <= w,
    decreases w,
{
    lemma2_to64();
    if v < 256 {
    } else {
        lemma_pow2_adds((8 * (w - 1)) as nat, 8);
        assert(pow2(8 * w) == pow2((8 * (w - 1)) as nat) * 256);
        assert(v / 256 < pow2((8 * (w - 1)) as nat)) by (nonlinear_arith)
            requires
                v < pow2((8 * (w - 1)) as nat) * 256,
        ;
        if w == 1 {
            assert(pow2(0) == 1);
            assert(false);
        }
        lemma_bytes_for_small(v / 256, (w - 1) as nat);
    }
}

/// Any value a `u64` can hold fits in eight bytes.
pub proof fn lemma_bytes_for_le_8(v: nat)
    requires
        v < 0x1_0000_0000_0000_0000,
    ensures
        bytes_for(v) <= 8,
{
    lemma2_to64_rest();
    assert(pow2(64) == 0x1_0000_0000_0000_0000);
    lemma_bytes_for_small(v, 8);
}

/// The `n`-byte little-endian encoding of `v mod 2^(8n)`.
pub open spec fn le_bytes(v: nat, n: nat) -> Seq<u8>
    decreases n,
{
    if n == 0 {
        Seq::empty()
    } else {
        seq![(v % 256) as u8] + le_bytes(v / 256, (n - 1) as nat)
    }
}

/// The value a little-endian byte run denotes.
pub open spec fn le_val(s: Seq<u8>) -> nat
    decreases s.len(),
{
    if s.len() == 0 {
        0
    } else {
        (s[0] + 256 * le_val(s.drop_first())) as nat
    }
}

/// Encoding then decoding recovers any value that fits the width.
pub proof fn lemma_le_roundtrip(v: nat, n: nat)
    requires
        v < pow2(8 * n),
    ensures
        le_bytes(v, n).len() == n,
        le_val(le_bytes(v, n)) == v,
    decreases n,
{
    lemma2_to64();
    if n == 0 {
        assert(pow2(0) == 1);
    } else {
        let s = le_bytes(v, n);
        lemma_pow2_adds((8 * (n - 1)) as nat, 8);
        assert(pow2(8 * n) == pow2((8 * (n - 1)) as nat) * 256);
        assert(v / 256 < pow2((8 * (n - 1)) as nat)) by (nonlinear_arith)
            requires
                v < pow2((8 * (n - 1)) as nat) * 256,
        ;
        lemma_le_roundtrip(v / 256, (n - 1) as nat);
        assert(s.drop_first() =~= le_bytes(v / 256, (n - 1) as nat));
        assert(s[0] + 256 * le_val(s.drop_first()) == v % 256 + 256 * (v / 256));
    }
}

pub proof fn lemma_le_bytes_len(v: nat, n: nat)
    ensures
        le_bytes(v, n).len() == n,
    decreases n,
{
    if n > 0 {
        lemma_le_bytes_len(v / 256, (n - 1) as nat);
    }
}

/// The encoded id of one symbol: its position in the symbol order, held in
/// `w` little-endian bytes.
pub open spec fn sym_bytes(order: Seq<Seq<char>>, w: nat, x: Seq<char>) -> Seq<u8> {
    le_bytes(first_index(order, x) as nat, w)
}

/// The ids of the first `k` symbols of a series, back to back.
pub open spec fn series_bytes_upto(order: Seq<Seq<char>>, w: nat, a: Seq<Seq<char>>, k: int) -> Seq<
    u8,
>
    decreases k,
{
    if k <= 0 {
        Seq::empty()
    } else {
        series_bytes_upto(order, w, a, k - 1) + sym_bytes(order, w, a[k - 1])
    }
}

/// One rule record: a style byte, one or two appendant byte lengths, the
/// start symbol id, the appendant ids, and for an output rule its bit.
pub open spec fn rule_record(order: Seq<Seq<char>>, w: nat, key: Seq<char>, body: RuleModel) -> Seq<
    u8,
> {
    match body {
        RuleModel::Pure(a) => seq![2u8] + le_bytes(a.len() * w, 2) + sym_bytes(order, w, key)
            + series_bytes_upto(order, w, a, a.len() as int),
        RuleModel::Input(a0, a1) => seq![1u8] + le_bytes(a0.len() * w, 2) + le_bytes(
            a1.len() * w,
            2,
        ) + sym_bytes(order, w, key) + series_bytes_upto(order, w, a0, a0.len() as int)
            + series_bytes_upto(order, w, a1, a1.len() as int),
        RuleModel::Output(a, bit) => seq![0u8] + le_bytes(a.len() * w, 2) + sym_bytes(
            order,
            w,
            key,
        ) + series_bytes_upto(order, w, a, a.len() as int) + seq![
            if bit {
                1u8
            } else {
                0u8
            },
        ],
    }
}

/// The records of the first `j` rules, back to back.
pub open spec fn rules_bytes_upto(
    order: Seq<Seq<char>>,
    w: nat,
    rules: Seq<(Seq<char>, RuleModel)>,
    j: int,
) -> Seq<u8>
    decreases j,
{
    if j <= 0 {
        Seq::empty()
    } else {
        rules_bytes_upto(order, w, rules, j - 1) + rule_record(
            order,
            w,
            rules[j - 1].0,
            rules[j - 1].1,
        )
    }
}

/// The fixed header: rule count, symbol width, queue byte length and
/// deletion number, each little-endian.
pub open spec fn header_bytes(p: ProgramModel, w: nat) -> Seq<u8> {
    le_bytes(p.rules.len(), 8) + le_bytes(w, 4) + le_bytes(p.queue.len() * w, 4) + le_bytes(
        p.deletion_number as nat,
        4,
    )
}

/// The whole binary artifact of one assembly.
pub open spec fn assemble_spec(p: ProgramModel) -> Seq<u8> {
    let order = symbol_order(p);
    let w = width_spec(order.len());
    header_bytes(p, w) + rules_bytes_upto(order, w, p.rules, p.rules.len() as int)
        + series_bytes_upto(order, w, p.queue, p.queue.len() as int)
}

/// Two values that agree modulo `2^(8n)` share one `n`-byte encoding.
pub proof fn lemma_le_bytes_mod(v1: nat, v2: nat, n: nat)
    requires
        v1 % pow2(8 * n) == v2 % pow2(8 * n),
    ensures
        le_bytes(v1, n) == le_bytes(v2, n),
    decreases n,
{
    lemma2_to64();
    if n > 0 {
        lemma_pow2_adds((8 * (n - 1)) as nat, 8);
        let m = pow2((8 * (n - 1)) as nat);
        lemma_pow2_pos((8 * (n - 1)) as nat);
        assert(pow2(8 * n) == pow2((8 * (n - 1)) as nat) * pow2(8));
        assert(m * 256 == 256 * m) by (nonlinear_arith);
        vstd::arithmetic::div_mod::lemma_mod_breakdown(v1 as int, 256, m as int);
        vstd::arithmetic::div_mod::lemma_mod_breakdown(v2 as int, 256, m as int);
        assert(256 * ((v1 as int / 256) % (m as int)) + v1 as int % 256 == 256 * ((v2 as int
            / 256) % (m as int)) + v2 as int % 256);
        assert(v1 % 256 == v2 % 256 && (v1 / 256) % m == (v2 / 256) % m);
        lemma_le_bytes_mod(v1 / 256, v2 / 256, (n - 1) as nat);
    }
}

fn contains_sym(v: &Vec<Symbol>, s: &Symbol) -> (r: bool)
    ensures
        r == series_model(v@).contains(s@),
{
    let n = v.len();
    let mut i: usize = 0;
    while i < n
        invariant
            n == v@.len(),
            i <= n,
            forall|k: int| 0 <= k < i ==> (#[trigger] series_model(v@)[k]) != s@,
        decreases n - i,
    {
        if v[i] == *s {
            proof {
                assert(series_model(v@)[i as int] == s@);
            }
            return true;
        }
        i += 1;
    }
    proof {
        if series_model(v@).contains(s@) {
            let k = choose|k: int|
                0 <= k < series_model(v@).len() && series_model(v@)[k] == s@;
            assert(false);
        }
    }
    false
}

fn push_unique(v: &mut Vec<Symbol>, s: &Symbol)
    ensures
        series_model(final(v)@) == add_sym(series_model(old(v)@), s@),
{
    if !contains_sym(v, s) {
        v.push(s.clone());
        proof {
            assert(series_model(v@) =~= series_model(old(v)@).push(s@));
        }
    }
}

fn push_series_syms(v: &mut Vec<Symbol>, a: &Series)
    ensures
        series_model(final(v)@) == add_series(series_model(old(v)@), series_model(a@)),
{
    let ghost base = series_model(old(v)@);
    let ghost am = series_model(a@);
    let n = a.len();
    let mut k: usize = 0;
    while k < n
        invariant
            n == a@.len(),
            k <= n,
            am == series_model(a@),
            series_model(v@) == add_series_upto(base, am, k as int),
        decreases n - k,
    {
        push_unique(v, &a[k]);
        k += 1;
    }
}

/// `add_series` over the first `i` symbols of a concatenation only sees the
/// left part while `i` stays within it.
proof fn lemma_add_series_upto_prefix(acc: Seq<Seq<char>>, a: Seq<Seq<char>>, b: Seq<Seq<char>>, i: int)
    requires
        i <= a.len(),
    ensures
        add_series_upto(acc, a + b, i) == add_series_upto(acc, a, i),
    decreases i,
{
    if i > 0 {
        lemma_add_series_upto_prefix(acc, a, b, i - 1);
        assert((a + b)[i - 1] == a[i - 1]);
    }
}

/// Collecting a concatenated series equals collecting its parts in turn.
proof fn lemma_add_series_concat(acc: Seq<Seq<char>>, a: Seq<Seq<char>>, b: Seq<Seq<char>>, k: int)
    requires
        0 <= k <= b.len(),
    ensures
        add_series_upto(acc, a + b, a.len() + k) == add_series_upto(add_series(acc, a), b, k),
    decreases k,
{
    if k <= 0 {
        lemma_add_series_upto_prefix(acc, a, b, a.len() as int);
    } else {
        lemma_add_series_concat(acc, a, b, k - 1);
        assert((a + b)[a.len() + k - 1] == b[k - 1]);
    }
}

impl Program {
    /// Computes the symbol width for `elements` distinct symbols: zero when
    /// there is none, else the least `w >= 1` whose `2^(8w)` exceeds the
    /// largest assigned id, `elements - 1`.
    pub fn calculate_byte_boundary(elements: usize) -> (r: usize)
        ensures
            r == width_spec(elements as nat),
            elements > 0 ==> 1 <= r <= 8,
    {
        if elements == 0 {
            return 0;
        }
        let ghost v0 = (elements - 1) as nat;
        let mut v: usize = elements - 1;
        let mut w: usize = 1;
        proof {
            lemma_bytes_for_le_8(v0);
        }
        while v >= 256
            invariant
                bytes_for(v0) == (w - 1) + bytes_for(v as nat),
                1 <= w,
                (w - 1) + bytes_for(v as nat) <= 8,
            decreases v,
        {
            v = v / 256;
            w = w + 1;
        }
        w
    }

    /// Collects every distinct symbol of the program — rule keys, then
    /// appendant symbols, then the queue, each in first-seen order — and
    /// pairs each with its dense numeric id.
    pub fn make_symbol_map(&self) -> (r: SymbolMap)
        ensures
            map_order(r@) == symbol_order(self@),
            map_ids_dense(r@),
            r@.len() == symbol_order(self@).len(),
    {
        let ghost rm = self@.rules;
        let mut uniq: Vec<Symbol> = Vec::new();
        let nr = self.rules.len();

        let mut j: usize = 0;
        while j < nr
            invariant
                nr == self.rules@.len(),
                j <= nr,
                rm == self@.rules,
                series_model(uniq@) == key_pass(rm, j as int),
            decreases nr - j,
        {
            push_unique(&mut uniq, &self.rules[j].0);
            j += 1;
        }

        let mut j2: usize = 0;
        while j2 < nr
            invariant
                nr == self.rules@.len(),
                j2 <= nr,
                rm == self@.rules,
                series_model(uniq@) == app_pass(rm, j2 as int),
            decreases nr - j2,
        {
            match &self.rules[j2].1 {
                RuleStyle::Pure(app) => {
                    push_series_syms(&mut uniq, app);
                },
                RuleStyle::Input(app0, app1) => {
                    let ghost acc = series_model(uniq@);
                    push_series_syms(&mut uniq, app0);
                    push_series_syms(&mut uniq, app1);
                    proof {
                        lemma_add_series_concat(
                            acc,
                            series_model(app0@),
                            series_model(app1@),
                            series_model(app1@).len() as int,
                        );
                    }
                },
                RuleStyle::Output(app, _) => {
                    push_series_syms(&mut uniq, app);
                },
            }
            j2 += 1;
        }

        push_series_syms(&mut uniq, &self.queue);
        proof {
            assert(series_model(uniq@) == symbol_order(self@));
        }

        let n = uniq.len();
        let mut map: SymbolMap = Vec::new();
        let mut i: usize = 0;
        while i < n
            invariant
                n == uniq@.len(),
                i <= n,
                map@.len() == i,
                forall|k: int|
                    0 <= k < i ==> (#[trigger] map@[k]).0@ == series_model(uniq@)[k] && map@[k].1
                        == k as u64,
            decreases n - i,
        {
            map.push((uniq[i].clone(), i as u64));
            i += 1;
        }
        proof {
            assert(map_order(map@) =~= series_model(uniq@));
        }
        map
    }
}

fn lookup_symbol(trans: &SymbolMap, s: &Symbol) -> (r: Option<u64>)
    requires
        map_ids_dense(trans@),
    ensures
        match r {
            Some(id) => map_order(trans@).contains(s@) && id as int == first_index(
                map_order(trans@),
                s@,
            ),
            None => !map_order(trans@).contains(s@),
        },
{
    let n = trans.len();
    let mut i: usize = 0;
    while i < n
        invariant
            n == trans@.len(),
            map_ids_dense(trans@),
            i <= n,
            forall|k: int| 0 <= k < i ==> (#[trigger] map_order(trans@)[k]) != s@,
        decreases n - i,
    {
        if trans[i].0 == *s {
            proof {
                assert(map_order(trans@)[i as int] == s@);
                lemma_first_index_at(map_order(trans@), s@, i as int);
            }
            return Some(trans[i].1);
        }
        i += 1;
    }
    proof {
        if map_order(trans@).contains(s@) {
            let k = choose|k: int|
                0 <= k < map_order(trans@).len() && map_order(trans@)[k] == s@;
            assert(false);
        }
    }
    None
}

/// Appends the `n`-byte little-endian encoding of `v`.
fn push_le(bin: &mut Vec<u8>, v: u64, n: usize)
    ensures
        final(bin)@ == old(bin)@ + le_bytes(v as nat, n as nat),
    decreases n,
{
    if n == 0 {
        proof {
            assert(bin@ =~= bin@ + le_bytes(v as nat, 0));
        }
    } else {
        let b: u8 = (v % 256) as u8;
        bin.push(b);
        push_le(bin, v / 256, n - 1);
        proof {
            assert(final(bin)@ =~= old(bin)@ + le_bytes(v as nat, n as nat));
        }
    }
}

/// Appends one symbol's id in `boundary` little-endian bytes.
fn push_symbol(bin: &mut Vec<u8>, trans: &SymbolMap, s: &Symbol, boundary: usize)
    requires
        map_ids_dense(trans@),
        map_order(trans@).contains(s@),
    ensures
        final(bin)@ == old(bin)@ + sym_bytes(map_order(trans@), boundary as nat, s@),
{
    match lookup_symbol(trans, s) {
        Some(id) => {
            push_le(bin, id, boundary);
        },
        None => {
            proof {
                assert(false);
            }
        },
    }
}

/// Appends the ids of every symbol of a series, in order.
fn push_series_ids(bin: &mut Vec<u8>, trans: &SymbolMap, a: &Series, boundary: usize)
    requires
        map_ids_dense(trans@),
        forall|k: int|
            0 <= k < a@.len() ==> map_order(trans@).contains(#[trigger] series_model(a@)[k]),
    ensures
        final(bin)@ == old(bin)@ + series_bytes_upto(
            map_order(trans@),
            boundary as nat,
            series_model(a@),
            a@.len() as int,
        ),
{
    let ghost base = old(bin)@;
    let ghost order = map_order(trans@);
    let ghost am = series_model(a@);
    let n = a.len();
    let mut k: usize = 0;
    proof {
        assert(bin@ =~= base + series_bytes_upto(order, boundary as nat, am, 0));
    }
    while k < n
        invariant
            n == a@.len(),
            k <= n,
            am == series_model(a@),
            order == map_order(trans@),
            map_ids_dense(trans@),
            forall|k2: int| 0 <= k2 < a@.len() ==> order.contains(#[trigger] am[k2]),
            bin@ == base + series_bytes_upto(order, boundary as nat, am, k as int),
        decreases n - k,
    {
        proof {
            assert(order.contains(am[k as int]));
        }
        push_symbol(bin, trans, &a[k], boundary);
        proof {
            assert(bin@ =~= base + series_bytes_upto(order, boundary as nat, am, k + 1));
        }
        k += 1;
    }
}

/// Every symbol a rule body appends is listed in `order`.
pub open spec fn syms_present(order: Seq<Seq<char>>, r: RuleModel) -> bool {
    forall|k: int|
        0 <= k < appendant_syms(r).len() ==> order.contains(#[trigger] appendant_syms(r)[k])
}

/// Reducing a value modulo the width's range leaves its encoding as it is.
proof fn lemma_mod_pow_le_bytes(x: nat, n: nat)
    ensures
        le_bytes(x % pow2(8 * n), n) == le_bytes(x, n),
{
    lemma_pow2_pos(8 * n);
    vstd::arithmetic::div_mod::lemma_mod_twice(x as int, pow2(8 * n) as int);
    lemma_le_bytes_mod(x % pow2(8 * n), x, n);
}

/// The product of two values below `2^64` fits a `u128`.
proof fn lemma_mul_fits_u128(x: nat, y: nat)
    requires
        x <= 0xffff_ffff_ffff_ffff,
        y <= 0xffff_ffff_ffff_ffff,
    ensures
        x * y < 0x1_0000_0000_0000_0000_0000_0000_0000_0000,
{
    assert(x * y <= 0xffff_ffff_ffff_ffff * 0xffff_ffff_ffff_ffff) by (nonlinear_arith)
        requires
            x <= 0xffff_ffff_ffff_ffff,
            y <= 0xffff_ffff_ffff_ffff,
    ;
}

/// Appends one whole rule record.
fn push_rule_record(bin: &mut Vec<u8>, trans: &SymbolMap, key: &Symbol, style: &RuleStyle, boundary: usize)
    requires
        map_ids_dense(trans@),
        map_order(trans@).contains(key@),
        syms_present(map_order(trans@), (*style)@),
    ensures
        final(bin)@ == old(bin)@ + rule_record(
            map_order(trans@),
            boundary as nat,
            key@,
            (*style)@,
        ),
{
    let ghost order = map_order(trans@);
    let ghost w = boundary as nat;
    proof {
        lemma2_to64();
        lemma2_to64_rest();
    }
    match style {
        RuleStyle::Pure(app) => {
            bin.push(2u8);
            let la: usize = app.len();
            proof {
                lemma_mul_fits_u128(la as nat, boundary as nat);
            }
            let lb: u128 = (la as u128) * (boundary as u128);
            let lv: u64 = (lb % 0x1_0000) as u64;
            push_le(bin, lv, 2);
            push_symbol(bin, trans, key, boundary);
            proof {
                assert forall|k: int|
                    0 <= k < app@.len() implies order.contains(
                    #[trigger] series_model(app@)[k],
                ) by {
                    assert(appendant_syms((*style)@)[k] == series_model(app@)[k]);
                }
            }
            push_series_ids(bin, trans, app, boundary);
            proof {
                lemma_mod_pow_le_bytes(app@.len() * w, 2);
                assert(pow2(16) == 0x1_0000);
                assert(lv as nat == (app@.len() * w) % pow2(16));
                assert(bin@ =~= old(bin)@ + rule_record(order, w, key@, (*style)@));
            }
        },
        RuleStyle::Input(app0, app1) => {
            bin.push(1u8);
            let la0: usize = app0.len();
            let la1: usize = app1.len();
            proof {
                lemma_mul_fits_u128(la0 as nat, boundary as nat);
                lemma_mul_fits_u128(la1 as nat, boundary as nat);
            }
            let lb0: u128 = (la0 as u128) * (boundary as u128);
            let lv0: u64 = (lb0 % 0x1_0000) as u64;
            push_le(bin, lv0, 2);
            let lb1: u128 = (la1 as u128) * (boundary as u128);
            let lv1: u64 = (lb1 % 0x1_0000) as u64;
            push_le(bin, lv1, 2);
            push_symbol(bin, trans, key, boundary);
            proof {
                let cat = series_model(app0@) + series_model(app1@);
                assert forall|k: int|
                    0 <= k < app0@.len() implies order.contains(
                    #[trigger] series_model(app0@)[k],
                ) by {
                    assert(appendant_syms((*style)@)[k] == series_model(app0@)[k]);
                }
                assert forall|k: int|
                    0 <= k < app1@.len() implies order.contains(
                    #[trigger] series_model(app1@)[k],
                ) by {
                    assert(appendant_syms((*style)@)[app0@.len() + k] == series_model(app1@)[k]);
                }
            }
            push_series_ids(bin, trans, app0, boundary);
            push_series_ids(bin, trans, app1, boundary);
            proof {
                lemma_mod_pow_le_bytes(app0@.len() * w, 2);
                lemma_mod_pow_le_bytes(app1@.len() * w, 2);
                assert(pow2(16) == 0x1_0000);
                assert(lv0 as nat == (app0@.len() * w) % pow2(16));
                assert(lv1 as nat == (app1@.len() * w) % pow2(16));
                assert(bin@ =~= old(bin)@ + rule_record(order, w, key@, (*style)@));
            }
        },
        RuleStyle::Output(app, bit) => {
            bin.push(0u8);
            let la: usize = app.len();
            proof {
                lemma_mul_fits_u128(la as nat, boundary as nat);
            }
            let lb: u128 = (la as u128) * (boundary as u128);
            let lv: u64 = (lb % 0x1_0000) as u64;
            push_le(bin, lv, 2);
            push_symbol(bin, trans, key, boundary);
            proof {
                assert forall|k: int|
                    0 <= k < app@.len() implies order.contains(
                    #[trigger] series_model(app@)[k],
                ) by {
                    assert(appendant_syms((*style)@)[k] == series_model(app@)[k]);
                }
            }
            push_series_ids(bin, trans, app, boundary);
            if *bit {
                bin.push(1u8);
            } else {
                bin.push(0u8);
            }
            proof {
                lemma_mod_pow_le_bytes(app@.len() * w, 2);
                assert(pow2(16) == 0x1_0000);
                assert(lv as nat == (app@.len() * w) % pow2(16));
                assert(bin@ =~= old(bin)@ + rule_record(order, w, key@, (*style)@));
            }
        },
    }
}

impl Program {
    /// Serializes the program: a fixed header, one record per rule in
    /// declaration order, then the queue, every symbol as its dense id in
    /// `symbol_width` little-endian bytes. Fails with `EmptyProgram` when
    /// the program holds no symbol at all.
    pub fn assemble(&self) -> (r: Result<(SymbolMap, Vec<u8>), TagErr>)
        ensures
            r is Ok <==> symbol_order(self@).len() > 0,
            symbol_order(self@).len() == 0 ==> r matches Err(TagErr::EmptyProgram),
            r matches Ok(pair) ==> {
                &&& map_order(pair.0@) == symbol_order(self@)
                &&& map_ids_dense(pair.0@)
                &&& pair.1@ == assemble_spec(self@)
            },
    {
        let ghost p = self@;
        let ghost order = symbol_order(p);
        let trans = self.make_symbol_map();
        let boundary = Program::calculate_byte_boundary(trans.len());
        let ghost w = boundary as nat;
        if boundary == 0 {
            return Err(TagErr::EmptyProgram);
        }
        if boundary > 8 {
            return Err(TagErr::TooManySymbols { boundary });
        }
        proof {
            lemma2_to64();
            lemma2_to64_rest();
            lemma_symbol_order(p);
        }

        let mut bin: Vec<u8> = Vec::new();

        push_le(&mut bin, self.rules.len() as u64, 8);
        push_le(&mut bin, boundary as u64, 4);
        let lq: usize = self.queue.len();
        proof {
            lemma_mul_fits_u128(lq as nat, boundary as nat);
        }
        let qb: u128 = (lq as u128) * (boundary as u128);
        let qv: u64 = (qb % 0x1_0000_0000) as u64;
        push_le(&mut bin, qv, 4);
        push_le(&mut bin, self.deletion_number as u64, 4);
        proof {
            lemma_mod_pow_le_bytes(p.queue.len() * w, 4);
            assert(pow2(32) == 0x1_0000_0000);
            assert(qv as nat == (p.queue.len() * w) % pow2(32));
            assert(bin@ =~= header_bytes(p, w));
        }

        let nr = self.rules.len();
        let mut j: usize = 0;
        while j < nr
            invariant
                nr == self.rules@.len(),
                j <= nr,
                p == self@,
                order == symbol_order(p),
                map_order(trans@) == order,
                map_ids_dense(trans@),
                w == boundary as nat,
                forall|x: Seq<char>| #[trigger] order.contains(x) <==> mentions(p, x),
                bin@ == header_bytes(p, w) + rules_bytes_upto(order, w, p.rules, j as int),
            decreases nr - j,
        {
            let ghost base = bin@;
            proof {
                assert(p.rules[j as int].0 == self.rules@[j as int].0@);
                assert(mentions(p, p.rules[j as int].0));
                assert forall|k: int|
                    0 <= k < appendant_syms(p.rules[j as int].1).len() implies order.contains(
                    #[trigger] appendant_syms(p.rules[j as int].1)[k],
                ) by {
                    assert(appendant_syms(p.rules[j as int].1).contains(
                        appendant_syms(p.rules[j as int].1)[k],
                    ));
                    assert(mentions(p, appendant_syms(p.rules[j as int].1)[k]));
                }
            }
            push_rule_record(&mut bin, &trans, &self.rules[j].0, &self.rules[j].1, boundary);
            proof {
                assert((self.rules@[j as int].1)@ == p.rules[j as int].1);
                assert(bin@ =~= header_bytes(p, w) + rules_bytes_upto(order, w, p.rules, j + 1));
            }
            j += 1;
        }

        proof {
            assert forall|k: int|
                0 <= k < self.queue@.len() implies order.contains(
                #[trigger] series_model(self.queue@)[k],
            ) by {
                assert(p.queue.contains(p.queue[k]));
                assert(mentions(p, p.queue[k]));
            }
        }
        push_series_ids(&mut bin, &trans, &self.queue, boundary);
        proof {
            assert(bin@ =~= assemble_spec(p));
        }

        Ok((trans, bin))
    }
}

/// A well-formed program always mentions a symbol, so assembling one never
/// fails: its queue is at least as long as its deletion number, which is at
/// least two.
pub proof fn lemma_wf_program_has_symbols(p: ProgramModel)
    requires
        p.deletion_number >= 2,
        p.queue.len() >= p.deletion_number,
    ensures
        symbol_order(p).len() > 0,
{
    lemma_symbol_order(p);
    assert(p.queue.contains(p.queue[0]));
    assert(mentions(p, p.queue[0]));
    assert(symbol_order(p).contains(p.queue[0]));
}

/// The symbol width of an assembly is the least byte count `w` whose id
/// range `2^(8w)` exceeds the largest assigned id, one less than the
/// number of distinct symbols.
pub proof fn lemma_symbol_width_minimal(p: ProgramModel)
    requires
        symbol_order(p).len() > 0,
    ensures
        ({
            let n = symbol_order(p).len();
            let w = width_spec(n);
            &&& w >= 1
            &&& pow2(8 * w) > n - 1
            &&& w > 1 ==> pow2((8 * (w - 1)) as nat) <= n - 1
        }),
{
    lemma_bytes_for_minimal((symbol_order(p).len() - 1) as nat);
}

/// Decoding the header's queue byte length and dividing by the symbol
/// width recovers the queue length of the assembled program.
pub proof fn lemma_queue_len_roundtrip(p: ProgramModel)
    requires
        symbol_order(p).len() > 0,
        p.queue.len() * width_spec(symbol_order(p).len()) < 0x1_0000_0000,
    ensures
        ({
            let w = width_spec(symbol_order(p).len());
            &&& le_val(assemble_spec(p).subrange(12, 16)) == p.queue.len() * w
            &&& le_val(assemble_spec(p).subrange(12, 16)) / w == p.queue.len()
        }),
{
    let order = symbol_order(p);
    let w = width_spec(order.len());
    let qb = p.queue.len() * w;
    lemma2_to64();
    lemma2_to64_rest();
    assert(pow2(32) == 0x1_0000_0000);
    lemma_le_bytes_len(p.rules.len(), 8);
    lemma_le_bytes_len(w, 4);
    lemma_le_bytes_len(qb, 4);
    lemma_le_bytes_len(p.deletion_number as nat, 4);
    assert(assemble_spec(p).subrange(12, 16) =~= le_bytes(qb, 4));
    lemma_le_roundtrip(qb, 4);
    assert(w >= 1);
    vstd::arithmetic::div_mod::lemma_div_multiples_vanish(p.queue.len() as int, w as int);
}

} // verus!
