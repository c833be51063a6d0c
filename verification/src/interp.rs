//! The bit-machine interpreter: an 8-bit sliding head window over an
//! unbounded two-sided bit tape, byte-oriented input and output buffering,
//! and the fetch-execute loop that serves as the compiler's oracle.

use vstd::prelude::*;

verus! {

/// What a head-window shift reports: it stayed inside the byte, or hit the
/// byte's upper or lower edge.
#[derive(Debug, Clone, Copy, PartialEq, Eq, Structural)]
pub enum BbStatus {
    Fine,
    Max,
    Min,
}

/// One byte holding eight tape bits, with a cursor over them.
#[derive(Debug)]
pub struct BitBuffer {
    pub data: u8,
    pub offset: u8,
}

/// Bit `j` of a byte.
pub open spec fn bb_bit(data: u8, j: u8) -> bool {
    data & (1u8 << j) != 0
}

/// The byte with bit `j` set to `bit` and every other bit kept.
pub open spec fn write_bit(data: u8, j: u8, bit: bool) -> u8 {
    if bit {
        data | (1u8 << j)
    } else {
        data & !(1u8 << j)
    }
}

impl BitBuffer {
    /// The cursor always stays inside the byte.
    pub open spec fn inv(self) -> bool {
        self.offset < 8
    }

    /// An all-zero buffer with the cursor at the low end.
    pub fn new() -> (r: BitBuffer)
        ensures
            r.data == 0,
            r.offset == 0,
            r.inv(),
            forall|j: u8| !bb_bit(r.data, j),
    {
        proof {
            assert forall|j: u8| !bb_bit(0u8, j) by {
                assert(0u8 & (1u8 << j) == 0) by (bit_vector);
            }
        }
        BitBuffer { data: 0, offset: 0 }
    }

    /// Sets the bit under the cursor.
    pub fn set(&mut self)
        requires
            old(self).inv(),
        ensures
            final(self).inv(),
            final(self).offset == old(self).offset,
            final(self).data == write_bit(old(self).data, old(self).offset, true),
            forall|j: u8|
                j < 8 ==> #[trigger] bb_bit(final(self).data, j) == (j == old(self).offset
                    || bb_bit(old(self).data, j)),
    {
        let ghost d = self.data;
        let ghost off = self.offset;
        self.data = self.data | (1u8 << self.offset);
        proof {
            assert forall|j: u8|
                j < 8 implies #[trigger] bb_bit(d | (1u8 << off), j) == (j == off || bb_bit(
                d,
                j,
            )) by {
                assert(j < 8 && off < 8 ==> (((d | (1u8 << off)) & (1u8 << j) != 0) == (j == off
                    || (d & (1u8 << j) != 0)))) by (bit_vector);
            }
        }
    }

    /// Clears the bit under the cursor.
    pub fn unset(&mut self)
        requires
            old(self).inv(),
        ensures
            final(self).inv(),
            final(self).offset == old(self).offset,
            final(self).data == write_bit(old(self).data, old(self).offset, false),
            forall|j: u8|
                j < 8 ==> #[trigger] bb_bit(final(self).data, j) == (j != old(self).offset
                    && bb_bit(old(self).data, j)),
    {
        let ghost d = self.data;
        let ghost off = self.offset;
        self.data = self.data & !(1u8 << self.offset);
        proof {
            assert forall|j: u8|
                j < 8 implies #[trigger] bb_bit(d & !(1u8 << off), j) == (j != off && bb_bit(
                d,
                j,
            )) by {
                assert(j < 8 && off < 8 ==> (((d & !(1u8 << off)) & (1u8 << j) != 0) == (j != off
                    && (d & (1u8 << j) != 0)))) by (bit_vector);
            }
        }
    }

    /// Writes the bit under the cursor.
    pub fn write(&mut self, bit: bool)
        requires
            old(self).inv(),
        ensures
            final(self).inv(),
            final(self).offset == old(self).offset,
            final(self).data == write_bit(old(self).data, old(self).offset, bit),
            forall|j: u8|
                j < 8 ==> #[trigger] bb_bit(final(self).data, j) == if j == old(self).offset {
                    bit
                } else {
                    bb_bit(old(self).data, j)
                },
    {
        if bit {
            self.set();
        } else {
            self.unset();
        }
    }

    /// Reads the bit under the cursor.
    pub fn read(&self) -> (r: bool)
        requires
            self.inv(),
        ensures
            r == bb_bit(self.data, self.offset),
    {
        (self.data & (1u8 << self.offset)) != 0
    }

    /// Moves the cursor one bit up, or reports that it sits at the top.
    pub fn left(&mut self) -> (r: BbStatus)
        requires
            old(self).inv(),
        ensures
            final(self).inv(),
            final(self).data == old(self).data,
            old(self).offset < 7 ==> r == BbStatus::Fine && final(self).offset == old(self).offset
                + 1,
            old(self).offset == 7 ==> r == BbStatus::Max && final(self).offset == old(self).offset,
    {
        let head_bits: u8 = 8;
        if self.offset < head_bits - 1 {
            self.offset = self.offset + 1;
            BbStatus::Fine
        } else {
            BbStatus::Max
        }
    }

    /// Moves the cursor one bit down, or reports that it sits at the bottom.
    pub fn right(&mut self) -> (r: BbStatus)
        requires
            old(self).inv(),
        ensures
            final(self).inv(),
            final(self).data == old(self).data,
            old(self).offset > 0 ==> r == BbStatus::Fine && final(self).offset == old(self).offset
                - 1,
            old(self).offset == 0 ==> r == BbStatus::Min && final(self).offset == 0,
    {
        if self.offset > 0 {
            self.offset = self.offset - 1;
            BbStatus::Fine
        } else {
            BbStatus::Min
        }
    }

    /// The whole byte.
    pub fn get(&self) -> (r: u8)
        ensures
            r == self.data,
    {
        self.data
    }

    /// Replaces the byte and parks the cursor at the edge the shift came
    /// from: the top for `Max`, else the bottom.
    pub fn restore(&mut self, data: u8, direction: BbStatus)
        ensures
            final(self).inv(),
            final(self).data == data,
            final(self).offset == if direction == BbStatus::Max {
                7u8
            } else {
                0u8
            },
    {
        self.data = data;
        if direction == BbStatus::Max {
            self.offset = 7;
        } else {
            self.offset = 0;
        }
    }

    /// The cursor position.
    pub fn offset(&self) -> (r: u8)
        ensures
            r == self.offset,
    {
        self.offset
    }
}

/// One rendered bit of a buffer dump: brackets mark the cursor's bit.
pub open spec fn bb_piece(data: u8, cursor: u8, j: int) -> Seq<char> {
    let bit = if bb_bit(data, j as u8) {
        seq!['1']
    } else {
        seq!['0']
    };
    if j == cursor {
        seq!['['] + bit + seq![']']
    } else {
        bit
    }
}

/// The bits from seven down to `j`, rendered high bit first.
pub open spec fn bb_prefix(data: u8, cursor: u8, j: int) -> Seq<char>
    decreases 8 - j,
{
    if j > 7 {
        Seq::empty()
    } else {
        bb_prefix(data, cursor, j + 1) + bb_piece(data, cursor, j)
    }
}

/// A buffer dump: all eight bits, high first, the cursor's in brackets.
pub open spec fn bb_render_spec(b: BitBuffer) -> Seq<char> {
    seq!['{'] + bb_prefix(b.data, b.offset, 0) + seq!['}']
}

impl BitBuffer {
    /// Renders the byte bit by bit, high bit first, with the cursor's bit
    /// in brackets.
    pub fn render(&self) -> (r: String)
        ensures
            r@ == bb_render_spec(*self),
    {
        let mut s: String = "{".to_owned();
        proof {
            reveal_strlit("{");
            reveal_strlit("}");
            reveal_strlit("0");
            reveal_strlit("1");
            reveal_strlit("[");
            reveal_strlit("]");
            assert(s@ =~= seq!['{'] + bb_prefix(self.data, self.offset, 8));
        }
        let mut jj: usize = 8;
        while jj > 0
            invariant
                jj <= 8,
                s@ == seq!['{'] + bb_prefix(self.data, self.offset, jj as int),
            decreases jj,
        {
            let j: u8 = (jj - 1) as u8;
            if j == self.offset {
                s.append("[");
            }
            if (self.data & (1u8 << j)) != 0 {
                s.append("1");
            } else {
                s.append("0");
            }
            if j == self.offset {
                s.append("]");
            }
            proof {
                reveal_strlit("0");
                reveal_strlit("1");
                reveal_strlit("[");
                reveal_strlit("]");
                assert(s@ =~= seq!['{'] + bb_prefix(self.data, self.offset, jj - 1));
            }
            jj = jj - 1;
        }
        s.append("}");
        proof {
            reveal_strlit("}");
            assert(s@ =~= bb_render_spec(*self));
        }
        s
    }
}

/// A bit of the stack holding the bytes left of the window: `d` bits below
/// the window's low end, counting from zero.
pub open spec fn left_bit(stack: Seq<u8>, d: int) -> bool {
    let k = d / 8;
    let b = d % 8;
    if 0 <= k < stack.len() {
        bb_bit(stack[stack.len() - 1 - k], b as u8)
    } else {
        false
    }
}

/// A bit of the stack holding the bytes right of the window: `d` bits above
/// the window's high end, counting from zero.
pub open spec fn right_bit(stack: Seq<u8>, d: int) -> bool {
    let k = d / 8;
    let b = d % 8;
    if 0 <= k < stack.len() {
        bb_bit(stack[stack.len() - 1 - k], (7 - b) as u8)
    } else {
        false
    }
}

/// The unbounded two-sided bit tape: the head byte holds the eight bits
/// logically nearest the position; shifting past the byte's edge promotes
/// or demotes a whole byte to or from the adjacent history stack.
#[derive(Debug)]
pub struct Memory {
    pub left: Vec<u8>,
    pub head: BitBuffer,
    pub right: Vec<u8>,
    pub position: i64,
}

impl Memory {
    pub open spec fn inv(self) -> bool {
        self.head.inv()
    }

    /// The logical index of the head window's high end.
    pub open spec fn hi(self) -> int {
        self.position + self.head.offset
    }

    /// The tape bit at logical index `i`; indices never touched are zero.
    pub open spec fn bit_at(self, i: int) -> bool {
        if i > self.hi() {
            right_bit(self.right@, i - self.hi() - 1)
        } else if i >= self.hi() - 7 {
            bb_bit(self.head.data, (self.hi() - i) as u8)
        } else {
            left_bit(self.left@, self.hi() - 8 - i)
        }
    }

    /// A fresh all-zero tape at position zero.
    pub fn new() -> (r: Memory)
        ensures
            r.inv(),
            r.position == 0,
            forall|i: int| !r.bit_at(i),
    {
        let m = Memory { left: Vec::new(), head: BitBuffer::new(), right: Vec::new(), position: 0 };
        proof {
            assert forall|i: int| !m.bit_at(i) by {}
        }
        m
    }

    /// Reads the bit at the current position.
    pub fn read(&self) -> (r: bool)
        requires
            self.inv(),
        ensures
            r == self.bit_at(self.position as int),
    {
        self.head.read()
    }

    /// Writes the bit at the current position; no other bit changes.
    pub fn write(&mut self, bit: bool)
        requires
            old(self).inv(),
        ensures
            final(self).inv(),
            final(self).position == old(self).position,
            final(self).bit_at(final(self).position as int) == bit,
            forall|i: int|
                i != old(self).position ==> #[trigger] final(self).bit_at(i) == old(self).bit_at(
                    i,
                ),
    {
        self.head.write(bit);
        proof {
            assert forall|i: int|
                i != old(self).position implies #[trigger] self.bit_at(i) == old(self).bit_at(
                i,
            ) by {
                if old(self).hi() - 7 <= i <= old(self).hi() {
                    assert((old(self).hi() - i) as u8 != old(self).head.offset);
                }
            }
        }
    }

    /// Sets the bit at the current position.
    pub fn set(&mut self)
        requires
            old(self).inv(),
        ensures
            final(self).inv(),
            final(self).position == old(self).position,
            final(self).bit_at(final(self).position as int),
            forall|i: int|
                i != old(self).position ==> #[trigger] final(self).bit_at(i) == old(self).bit_at(
                    i,
                ),
    {
        self.write(true);
    }

    /// Clears the bit at the current position.
    pub fn unset(&mut self)
        requires
            old(self).inv(),
        ensures
            final(self).inv(),
            final(self).position == old(self).position,
            !final(self).bit_at(final(self).position as int),
            forall|i: int|
                i != old(self).position ==> #[trigger] final(self).bit_at(i) == old(self).bit_at(
                    i,
                ),
    {
        self.write(false);
    }

    /// Moves one position left; every tape bit keeps its value.
    pub fn seek_left_unop(&mut self)
        requires
            old(self).inv(),
            old(self).position > i64::MIN,
        ensures
            final(self).inv(),
            final(self).position == old(self).position - 1,
            forall|i: int| #[trigger] final(self).bit_at(i) == old(self).bit_at(i),
    {
        let ghost m0 = *old(self);
        self.position = self.position - 1;
        let old_head = self.head.get();
        if self.head.left() != BbStatus::Fine {
            let new_data = match self.left.pop() {
                None => 0,
                Some(value) => value,
            };
            self.head.restore(new_data, BbStatus::Min);
            self.right.push(old_head);
            proof {
                let hh = m0.hi();
                let h = m0.head.data;
                let l0 = m0.left@;
                let r0 = m0.right@;
                assert(self.hi() == hh - 8);
                assert forall|i: int| #[trigger] self.bit_at(i) == m0.bit_at(i) by {
                    if i > hh {
                        let d = i - hh - 1;
                        assert((d + 8) / 8 == d / 8 + 1 && (d + 8) % 8 == d % 8) by (nonlinear_arith)
                            requires
                                d >= 0,
                        ;
                        if d / 8 < r0.len() {
                            assert(self.right@[self.right@.len() - 1 - (d / 8 + 1)] == r0[r0.len()
                                - 1 - d / 8]);
                        }
                    } else if i >= hh - 7 {
                        let d = i - (hh - 8) - 1;
                        assert(0 <= d < 8);
                        assert(d / 8 == 0 && d % 8 == d);
                        assert(self.right@[self.right@.len() - 1] == h);
                    } else if i >= hh - 15 {
                        let j = hh - 8 - i;
                        assert(0 <= j < 8);
                        assert(j / 8 == 0 && j % 8 == j);
                        if l0.len() > 0 {
                            assert(self.head.data == l0[l0.len() - 1]);
                        } else {
                            assert(!bb_bit(0u8, (j as u8))) by (bit_vector);
                        }
                    } else {
                        let d0 = hh - 8 - i;
                        assert(d0 > 7);
                        assert((d0 - 8) / 8 == d0 / 8 - 1 && (d0 - 8) % 8 == d0 % 8)
                            by (nonlinear_arith)
                            requires
                                d0 >= 8,
                        ;
                        if l0.len() > 0 && d0 / 8 < l0.len() {
                            assert(self.left@[self.left@.len() - 1 - (d0 / 8 - 1)] == l0[l0.len()
                                - 1 - d0 / 8]);
                        }
                    }
                }
            }
        } else {
            proof {
                assert(self.hi() == m0.hi());
                assert forall|i: int| #[trigger] self.bit_at(i) == m0.bit_at(i) by {}
            }
        }
    }

    /// Moves one position left.
    pub fn seek_left(&mut self)
        requires
            old(self).inv(),
            old(self).position > i64::MIN,
        ensures
            final(self).inv(),
            final(self).position == old(self).position - 1,
            forall|i: int| #[trigger] final(self).bit_at(i) == old(self).bit_at(i),
    {
        self.seek_left_unop();
    }

    /// Moves one position right; every tape bit keeps its value.
    pub fn seek_right_unop(&mut self)
        requires
            old(self).inv(),
            old(self).position < i64::MAX,
        ensures
            final(self).inv(),
            final(self).position == old(self).position + 1,
            forall|i: int| #[trigger] final(self).bit_at(i) == old(self).bit_at(i),
    {
        let ghost m0 = *old(self);
        self.position = self.position + 1;
        let old_head = self.head.get();
        if self.head.right() != BbStatus::Fine {
            let new_data = match self.right.pop() {
                None => 0,
                Some(value) => value,
            };
            self.head.restore(new_data, BbStatus::Max);
            self.left.push(old_head);
            proof {
                let hh = m0.hi();
                let h = m0.head.data;
                let l0 = m0.left@;
                let r0 = m0.right@;
                assert(self.hi() == hh + 8);
                assert forall|i: int| #[trigger] self.bit_at(i) == m0.bit_at(i) by {
                    if i > hh + 8 {
                        let d0 = i - hh - 1;
                        assert(d0 > 7);
                        assert((d0 - 8) / 8 == d0 / 8 - 1 && (d0 - 8) % 8 == d0 % 8)
                            by (nonlinear_arith)
                            requires
                                d0 >= 8,
                        ;
                        if r0.len() > 0 && d0 / 8 < r0.len() {
                            assert(self.right@[self.right@.len() - 1 - (d0 / 8 - 1)] == r0[r0.len()
                                - 1 - d0 / 8]);
                        }
                    } else if i > hh {
                        let j = hh + 8 - i;
                        assert(0 <= j < 8);
                        let d = i - hh - 1;
                        assert(0 <= d < 8);
                        assert(d / 8 == 0 && d % 8 == d);
                        if r0.len() > 0 {
                            assert(self.head.data == r0[r0.len() - 1]);
                        } else {
                            assert(!bb_bit(0u8, (j as u8))) by (bit_vector);
                            assert(!bb_bit(0u8, ((7 - d) as u8))) by (bit_vector);
                        }
                    } else if i >= hh - 7 {
                        let d = hh + 8 - 8 - i;
                        assert(0 <= d < 8);
                        assert(d / 8 == 0 && d % 8 == d);
                        assert(self.left@[self.left@.len() - 1] == h);
                    } else {
                        let d0 = hh - 8 - i;
                        assert(d0 >= 0);
                        assert((d0 + 8) / 8 == d0 / 8 + 1 && (d0 + 8) % 8 == d0 % 8)
                            by (nonlinear_arith)
                            requires
                                d0 >= 0,
                        ;
                        if d0 / 8 < l0.len() {
                            assert(self.left@[self.left@.len() - 1 - (d0 / 8 + 1)] == l0[l0.len()
                                - 1 - d0 / 8]);
                        }
                    }
                }
            }
        } else {
            proof {
                assert(self.hi() == m0.hi());
                assert forall|i: int| #[trigger] self.bit_at(i) == m0.bit_at(i) by {}
            }
        }
    }

    /// Moves one position right.
    pub fn seek_right(&mut self)
        requires
            old(self).inv(),
            old(self).position < i64::MAX,
        ensures
            final(self).inv(),
            final(self).position == old(self).position + 1,
            forall|i: int| #[trigger] final(self).bit_at(i) == old(self).bit_at(i),
    {
        self.seek_right_unop();
    }

    /// Renders the tape: the position, the left history bytes in storage
    /// order, the head window, and the right history bytes nearest first.
    pub fn render(&self) -> (r: String)
        ensures
            r@ == mem_render_spec(*self),
    {
        let mut s = crate::text::fmt_i64(self.position);
        s.append(": ");
        proof {
            reveal_strlit(": ");
            assert(s@ =~= crate::text::dec_signed_spec(self.position as int) + ": "@
                + bytes_hex_upto(self.left@, 0));
        }
        let nl = self.left.len();
        let mut k: usize = 0;
        while k < nl
            invariant
                nl == self.left@.len(),
                k <= nl,
                s@ == crate::text::dec_signed_spec(self.position as int) + ": "@
                    + bytes_hex_upto(self.left@, k as int),
            decreases nl - k,
        {
            crate::text::append_byte_hex(&mut s, self.left[k]);
            proof {
                assert(s@ =~= crate::text::dec_signed_spec(self.position as int) + ": "@
                    + bytes_hex_upto(self.left@, k + 1));
            }
            k += 1;
        }
        let head = self.head.render();
        s.append(head.as_str());
        let ghost base = s@;
        proof {
            assert(base =~= crate::text::dec_signed_spec(self.position as int) + ": "@
                + bytes_hex_upto(self.left@, self.left@.len() as int) + bb_render_spec(self.head));
            assert(s@ =~= base + bytes_hex_rev_upto(self.right@, 0));
        }
        let nr = self.right.len();
        let mut k2: usize = 0;
        while k2 < nr
            invariant
                nr == self.right@.len(),
                k2 <= nr,
                s@ == base + bytes_hex_rev_upto(self.right@, k2 as int),
            decreases nr - k2,
        {
            crate::text::append_byte_hex(&mut s, self.right[nr - 1 - k2]);
            proof {
                assert(s@ =~= base + bytes_hex_rev_upto(self.right@, k2 + 1));
            }
            k2 += 1;
        }
        proof {
            assert(s@ =~= mem_render_spec(*self));
        }
        s
    }
}

/// The first `k` bytes of a stack as hexadecimal pairs, in storage order.
pub open spec fn bytes_hex_upto(s: Seq<u8>, k: int) -> Seq<char>
    decreases k,
{
    if k <= 0 {
        Seq::empty()
    } else {
        bytes_hex_upto(s, k - 1) + crate::text::byte_hex_spec(s[k - 1])
    }
}

/// The last `k` bytes of a stack as hexadecimal pairs, last byte first.
pub open spec fn bytes_hex_rev_upto(s: Seq<u8>, k: int) -> Seq<char>
    decreases k,
{
    if k <= 0 {
        Seq::empty()
    } else {
        bytes_hex_rev_upto(s, k - 1) + crate::text::byte_hex_spec(s[s.len() - k])
    }
}

/// A tape dump: the position, the left bytes, the bracketed head window,
/// and the right bytes nearest the head first.
pub open spec fn mem_render_spec(m: Memory) -> Seq<char> {
    crate::text::dec_signed_spec(m.position as int) + ": "@ + bytes_hex_upto(
        m.left@,
        m.left@.len() as int,
    ) + bb_render_spec(m.head) + bytes_hex_rev_upto(m.right@, m.right@.len() as int)
}

broadcast use vstd::std_specs::vec::axiom_spec_len;

/// One interpreter run: the tape, the program with its counter, and the
/// bit-buffered input and output byte streams.
#[derive(Debug)]
pub struct State {
    pub mem: Memory,
    pub pc: crate::mach::InsnOffset,
    pub instructions: Vec<crate::mach::Insn>,
    pub output: BitBuffer,
    pub input: BitBuffer,
    /// The input bytes this run may consume, and how many it has.
    pub in_bytes: Vec<u8>,
    pub in_pos: usize,
    /// The whole output bytes flushed so far.
    pub out_bytes: Vec<u8>,
    /// The diagnostic snapshots the debug marker has emitted, in order.
    pub snapshots: Vec<String>,
}

/// The tape is unchanged between two states.
pub open spec fn mem_same(a: Memory, b: Memory) -> bool {
    &&& b.position == a.position
    &&& forall|i: int| #[trigger] b.bit_at(i) == a.bit_at(i)
}

/// The tape differs only in the bit at its (unchanged) position.
pub open spec fn mem_wrote(a: Memory, b: Memory, bit: bool) -> bool {
    &&& b.position == a.position
    &&& b.bit_at(b.position as int) == bit
    &&& forall|i: int| i != a.position ==> #[trigger] b.bit_at(i) == a.bit_at(i)
}

/// The tape moved by `delta` with every bit kept.
pub open spec fn mem_moved(a: Memory, b: Memory, delta: int) -> bool {
    &&& b.position == a.position + delta
    &&& forall|i: int| #[trigger] b.bit_at(i) == a.bit_at(i)
}

/// The input side is unchanged between two states.
pub open spec fn input_same(a: State, b: State) -> bool {
    &&& b.input.data == a.input.data
    &&& b.input.offset == a.input.offset
    &&& b.in_bytes@ == a.in_bytes@
    &&& b.in_pos == a.in_pos
}

/// The output side is unchanged between two states.
pub open spec fn output_same(a: State, b: State) -> bool {
    &&& b.output.data == a.output.data
    &&& b.output.offset == a.output.offset
    &&& b.out_bytes@ == a.out_bytes@
    &&& b.snapshots@ == a.snapshots@
}

/// The effect of one output step on the output side: the head bit enters
/// the buffer; a completed byte is flushed and the buffer reset.
pub open spec fn output_step(a: State, b: State, bit: bool) -> bool {
    let filled = write_bit(a.output.data, a.output.offset, bit);
    if a.output.offset < 7 {
        &&& b.output.data == filled
        &&& b.output.offset == a.output.offset + 1
        &&& b.out_bytes@ == a.out_bytes@
        &&& b.snapshots@ == a.snapshots@
    } else {
        &&& b.output.data == 0
        &&& b.output.offset == 0
        &&& b.out_bytes@ == a.out_bytes@.push(filled)
        &&& b.snapshots@ == a.snapshots@
    }
}

/// The effect of one input step: the buffer refills from the next input
/// byte when exhausted; the raw byte `0xff`, or the end of the input,
/// halts by parking the counter past every instruction. Otherwise the
/// buffered bit is written to the tape and the cursor advances, arming a
/// refill after the eighth bit.
pub open spec fn input_step(a: State, b: State) -> bool {
    if a.input.offset == 0 {
        if a.in_pos < a.in_bytes@.len() {
            let byte = a.in_bytes@[a.in_pos as int];
            if byte == 0xff {
                &&& b.pc == usize::MAX
                &&& b.in_pos == a.in_pos + 1
                &&& b.input.data == a.input.data
                &&& b.input.offset == a.input.offset
                &&& mem_same(a.mem, b.mem)
            } else {
                &&& b.pc == a.pc + 1
                &&& b.in_pos == a.in_pos + 1
                &&& b.input.data == byte
                &&& b.input.offset == 1
                &&& mem_wrote(a.mem, b.mem, bb_bit(byte, 0))
            }
        } else {
            &&& b.pc == usize::MAX
            &&& b.in_pos == a.in_pos
            &&& b.input.data == a.input.data
            &&& b.input.offset == a.input.offset
            &&& mem_same(a.mem, b.mem)
        }
    } else {
        let bit = bb_bit(a.input.data, a.input.offset);
        &&& b.pc == a.pc + 1
        &&& b.in_pos == a.in_pos
        &&& mem_wrote(a.mem, b.mem, bit)
        &&& if a.input.offset < 7 {
            b.input.data == a.input.data && b.input.offset == a.input.offset + 1
        } else {
            b.input.data == 0xff && b.input.offset == 0
        }
    }
}

impl State {
    pub open spec fn inv(self) -> bool {
        &&& self.mem.inv()
        &&& self.output.inv()
        &&& self.input.inv()
        &&& self.in_pos <= self.in_bytes@.len()
    }

    /// The counter has run past the instruction list.
    pub open spec fn halted(self) -> bool {
        self.pc >= self.instructions@.len()
    }

    /// A fresh run over `instructions`, reading from `input`: zeroed tape
    /// and buffers, counter at the first instruction.
    pub fn new(instructions: Vec<crate::mach::Insn>, input: Vec<u8>) -> (r: State)
        ensures
            r.inv(),
            r.pc == 0,
            r.instructions@ == instructions@,
            r.mem.position == 0,
            forall|i: int| !r.mem.bit_at(i),
            r.output.data == 0 && r.output.offset == 0,
            r.input.data == 0 && r.input.offset == 0,
            r.in_bytes@ == input@,
            r.in_pos == 0,
            r.out_bytes@ == Seq::<u8>::empty(),
            r.snapshots@ == Seq::<String>::empty(),
    {
        State {
            mem: Memory::new(),
            pc: 0,
            instructions,
            output: BitBuffer::new(),
            input: BitBuffer::new(),
            in_bytes: input,
            in_pos: 0,
            out_bytes: Vec::new(),
            snapshots: Vec::new(),
        }
    }

    /// The instruction under the counter.
    pub fn pc(&self) -> (r: crate::mach::Insn)
        requires
            !self.halted(),
        ensures
            r == self.instructions@[self.pc as int],
    {
        self.instructions[self.pc]
    }

    /// Whether the run is over.
    pub fn halt(&self) -> (r: bool)
        ensures
            r == self.halted(),
    {
        self.pc >= self.instructions.len()
    }

    /// Sets the bit under the tape head and advances.
    pub fn set(&mut self)
        requires
            old(self).inv(),
            !old(self).halted(),
        ensures
            final(self).inv(),
            final(self).pc == old(self).pc + 1,
            final(self).instructions@ == old(self).instructions@,
            mem_wrote(old(self).mem, final(self).mem, true),
            input_same(*old(self), *final(self)),
            output_same(*old(self), *final(self)),
    {
        proof {
            assert(self.instructions.len() == self.instructions@.len());
        }
        self.mem.set();
        self.pc = self.pc + 1;
    }

    /// Clears the bit under the tape head and advances.
    pub fn unset(&mut self)
        requires
            old(self).inv(),
            !old(self).halted(),
        ensures
            final(self).inv(),
            final(self).pc == old(self).pc + 1,
            final(self).instructions@ == old(self).instructions@,
            mem_wrote(old(self).mem, final(self).mem, false),
            input_same(*old(self), *final(self)),
            output_same(*old(self), *final(self)),
    {
        proof {
            assert(self.instructions.len() == self.instructions@.len());
        }
        self.mem.unset();
        self.pc = self.pc + 1;
    }

    /// Shifts the tape one position left and advances.
    pub fn left(&mut self)
        requires
            old(self).inv(),
            !old(self).halted(),
            old(self).mem.position > i64::MIN,
        ensures
            final(self).inv(),
            final(self).pc == old(self).pc + 1,
            final(self).instructions@ == old(self).instructions@,
            mem_moved(old(self).mem, final(self).mem, -1),
            input_same(*old(self), *final(self)),
            output_same(*old(self), *final(self)),
    {
        proof {
            assert(self.instructions.len() == self.instructions@.len());
        }
        self.mem.seek_left();
        self.pc = self.pc + 1;
    }

    /// Shifts the tape one position right and advances.
    pub fn right(&mut self)
        requires
            old(self).inv(),
            !old(self).halted(),
            old(self).mem.position < i64::MAX,
        ensures
            final(self).inv(),
            final(self).pc == old(self).pc + 1,
            final(self).instructions@ == old(self).instructions@,
            mem_moved(old(self).mem, final(self).mem, 1),
            input_same(*old(self), *final(self)),
            output_same(*old(self), *final(self)),
    {
        proof {
            assert(self.instructions.len() == self.instructions@.len());
        }
        self.mem.seek_right();
        self.pc = self.pc + 1;
    }

    /// Buffers the head bit into the output byte, flushing it when full,
    /// and advances.
    pub fn put(&mut self)
        requires
            old(self).inv(),
            !old(self).halted(),
        ensures
            final(self).inv(),
            final(self).pc == old(self).pc + 1,
            final(self).instructions@ == old(self).instructions@,
            mem_same(old(self).mem, final(self).mem),
            input_same(*old(self), *final(self)),
            output_step(
                *old(self),
                *final(self),
                old(self).mem.bit_at(old(self).mem.position as int),
            ),
    {
        proof {
            assert(self.instructions.len() == self.instructions@.len());
        }
        let bit = self.mem.read();
        self.output.write(bit);
        if self.output.left() == BbStatus::Max {
            let out = self.output.get();
            self.out_bytes.push(out);
            self.output.restore(0, BbStatus::Min);
        }
        self.pc = self.pc + 1;
    }

    /// Consumes one buffered input bit onto the tape, refilling the buffer
    /// from the next input byte as needed; the end-of-input sentinel halts
    /// the run instead.
    pub fn get(&mut self)
        requires
            old(self).inv(),
            !old(self).halted(),
        ensures
            final(self).inv(),
            final(self).instructions@ == old(self).instructions@,
            final(self).out_bytes@ == old(self).out_bytes@,
            final(self).output.data == old(self).output.data,
            final(self).output.offset == old(self).output.offset,
            final(self).snapshots@ == old(self).snapshots@,
            final(self).in_bytes@ == old(self).in_bytes@,
            input_step(*old(self), *final(self)),
    {
        proof {
            assert(self.instructions.len() == self.instructions@.len());
        }
        if self.input.offset() == 0 {
            let byte: u8 = if self.in_pos < self.in_bytes.len() {
                let b = self.in_bytes[self.in_pos];
                self.in_pos = self.in_pos + 1;
                b
            } else {
                0xff
            };
            if byte == 0xff {
                // Halt on the end-of-input sentinel.
                self.pc = usize::MAX;
                return ;
            }
            self.input.restore(byte, BbStatus::Min);
        }

        let bit = self.input.read();
        self.mem.write(bit);
        if self.input.left() != BbStatus::Fine {
            self.input.restore(0xff, BbStatus::Min);
        }
        self.pc = self.pc + 1;
    }

    /// Jumps to one of two offsets by the bit under the tape head.
    pub fn branch(&mut self, set: crate::mach::InsnOffset, unset: crate::mach::InsnOffset)
        requires
            old(self).inv(),
        ensures
            final(self).inv(),
            final(self).instructions@ == old(self).instructions@,
            final(self).pc == if old(self).mem.bit_at(old(self).mem.position as int) {
                set
            } else {
                unset
            },
            mem_same(old(self).mem, final(self).mem),
            input_same(*old(self), *final(self)),
            output_same(*old(self), *final(self)),
    {
        if self.mem.read() {
            self.pc = set;
        } else {
            self.pc = unset;
        }
    }

    /// The diagnostic marker: emits a snapshot of the state it fires in,
    /// then advances.
    pub fn debug(&mut self)
        requires
            old(self).inv(),
            !old(self).halted(),
        ensures
            final(self).inv(),
            final(self).pc == old(self).pc + 1,
            final(self).instructions@ == old(self).instructions@,
            mem_same(old(self).mem, final(self).mem),
            input_same(*old(self), *final(self)),
            final(self).output.data == old(self).output.data,
            final(self).output.offset == old(self).output.offset,
            final(self).out_bytes@ == old(self).out_bytes@,
            final(self).snapshots@.len() == old(self).snapshots@.len() + 1,
            final(self).snapshots@.drop_last() == old(self).snapshots@,
            final(self).snapshots@.last()@ == state_render_spec(*old(self)),
    {
        proof {
            assert(self.instructions.len() == self.instructions@.len());
        }
        let snap = self.render();
        self.snapshots.push(snap);
        self.pc = self.pc + 1;
        proof {
            assert(self.snapshots@.drop_last() =~= old(self).snapshots@);
        }
    }
}

/// An instruction as its source mnemonic; a jump shows its two resolved
/// offsets.
pub open spec fn insn_text(i: crate::mach::Insn) -> Seq<char> {
    match i {
        crate::mach::Insn::Write(crate::mach::WriteOp::SetBit) => "write-set"@,
        crate::mach::Insn::Write(crate::mach::WriteOp::UnsetBit) => "write-unset"@,
        crate::mach::Insn::Seek(crate::mach::SeekOp::Left) => "seek-left"@,
        crate::mach::Insn::Seek(crate::mach::SeekOp::Right) => "seek-right"@,
        crate::mach::Insn::Io(crate::mach::IoOp::In) => "io-in"@,
        crate::mach::Insn::Io(crate::mach::IoOp::Out) => "io-out"@,
        crate::mach::Insn::Debug => "debug"@,
        crate::mach::Insn::Jmp(t, f) => "jmp "@ + crate::text::dec_spec(t as nat) + ", "@
            + crate::text::dec_spec(f as nat),
    }
}

/// A whole diagnostic snapshot: the tape, the counter with its
/// instruction, and both io buffers.
pub open spec fn state_render_spec(s: State) -> Seq<char> {
    "{\n    memory: "@ + mem_render_spec(s.mem) + "\n    code: "@ + crate::text::dec_spec(
        s.pc as nat,
    ) + ": "@ + (if s.halted() {
        "INVALID"@
    } else {
        insn_text(s.instructions@[s.pc as int])
    }) + "\n    input: "@ + bb_render_spec(s.input) + "\n    output: "@ + bb_render_spec(s.output)
        + "\n}"@
}

impl State {
    /// Renders the diagnostic snapshot the debug marker stands for.
    pub fn render(&self) -> (r: String)
        ensures
            r@ == state_render_spec(*self),
    {
        let mut s: String = "{\n    memory: ".to_owned();
        let mem = self.mem.render();
        s.append(mem.as_str());
        s.append("\n    code: ");
        let pc = crate::text::fmt_usize(self.pc);
        s.append(pc.as_str());
        s.append(": ");
        if self.pc < self.instructions.len() {
            match self.instructions[self.pc] {
                crate::mach::Insn::Write(crate::mach::WriteOp::SetBit) => s.append("write-set"),
                crate::mach::Insn::Write(crate::mach::WriteOp::UnsetBit) => s.append(
                    "write-unset",
                ),
                crate::mach::Insn::Seek(crate::mach::SeekOp::Left) => s.append("seek-left"),
                crate::mach::Insn::Seek(crate::mach::SeekOp::Right) => s.append("seek-right"),
                crate::mach::Insn::Io(crate::mach::IoOp::In) => s.append("io-in"),
                crate::mach::Insn::Io(crate::mach::IoOp::Out) => s.append("io-out"),
                crate::mach::Insn::Debug => s.append("debug"),
                crate::mach::Insn::Jmp(t, f) => {
                    s.append("jmp ");
                    let ts = crate::text::fmt_usize(t);
                    s.append(ts.as_str());
                    s.append(", ");
                    let fs = crate::text::fmt_usize(f);
                    s.append(fs.as_str());
                },
            }
        } else {
            s.append("INVALID");
        }
        s.append("\n    input: ");
        let inb = self.input.render();
        s.append(inb.as_str());
        s.append("\n    output: ");
        let outb = self.output.render();
        s.append(outb.as_str());
        s.append("\n}");
        proof {
            assert(s@ =~= state_render_spec(*self));
        }
        s
    }
}

/// One fetch-dispatch-execute step of the machine, as a relation between
/// the state before and after.
pub open spec fn step_rel(pre: State, post: State) -> bool {
    &&& !pre.halted()
    &&& post.instructions@ == pre.instructions@
    &&& post.in_bytes@ == pre.in_bytes@
    &&& match pre.instructions@[pre.pc as int] {
        crate::mach::Insn::Write(op) => {
            &&& post.pc == pre.pc + 1
            &&& mem_wrote(pre.mem, post.mem, op == crate::mach::WriteOp::SetBit)
            &&& input_same(pre, post)
            &&& output_same(pre, post)
        },
        crate::mach::Insn::Seek(op) => {
            &&& post.pc == pre.pc + 1
            &&& mem_moved(
                pre.mem,
                post.mem,
                if op == crate::mach::SeekOp::Left {
                    -1
                } else {
                    1
                },
            )
            &&& input_same(pre, post)
            &&& output_same(pre, post)
        },
        crate::mach::Insn::Io(crate::mach::IoOp::Out) => {
            &&& post.pc == pre.pc + 1
            &&& mem_same(pre.mem, post.mem)
            &&& input_same(pre, post)
            &&& output_step(pre, post, pre.mem.bit_at(pre.mem.position as int))
        },
        crate::mach::Insn::Io(crate::mach::IoOp::In) => {
            &&& input_step(pre, post)
            &&& output_same(pre, post)
        },
        crate::mach::Insn::Jmp(t, f) => {
            &&& post.pc == if pre.mem.bit_at(pre.mem.position as int) {
                t
            } else {
                f
            }
            &&& mem_same(pre.mem, post.mem)
            &&& input_same(pre, post)
            &&& output_same(pre, post)
        },
        crate::mach::Insn::Debug => {
            &&& post.pc == pre.pc + 1
            &&& mem_same(pre.mem, post.mem)
            &&& input_same(pre, post)
            &&& post.output.data == pre.output.data
            &&& post.output.offset == pre.output.offset
            &&& post.out_bytes@ == pre.out_bytes@
            &&& post.snapshots@.len() == pre.snapshots@.len() + 1
            &&& post.snapshots@.drop_last() == pre.snapshots@
            &&& post.snapshots@.last()@ == state_render_spec(pre)
        },
    }
}

/// `b` arises from `a` by exactly `n` machine steps.
pub open spec fn reaches(a: State, b: State, n: nat) -> bool
    decreases n,
{
    if n == 0 {
        a == b
    } else {
        exists|mid: State| #[trigger] step_rel(a, mid) && reaches(mid, b, (n - 1) as nat)
    }
}

/// A step appended to a chain of steps extends it by one.
pub proof fn lemma_reaches_step(a: State, b: State, c: State, n: nat)
    requires
        reaches(a, b, n),
        step_rel(b, c),
    ensures
        reaches(a, c, n + 1),
    decreases n,
{
    if n == 0 {
        assert(step_rel(a, c) && reaches(c, c, 0));
    } else {
        let mid = choose|mid: State| #[trigger] step_rel(a, mid) && reaches(mid, b, (n - 1) as nat);
        lemma_reaches_step(mid, b, c, (n - 1) as nat);
        assert(step_rel(a, mid) && reaches(mid, c, n));
    }
}

/// The machine is observably deterministic: two successors of one state
/// agree on the counter, the tape's position and every bit, both io
/// sides, and the number of snapshots. (Only a debug snapshot's text may
/// differ, as it may render one tape through different byte layouts.)
pub proof fn lemma_step_rel_observable(pre: State, b: State, c: State)
    requires
        step_rel(pre, b),
        step_rel(pre, c),
    ensures
        b.pc == c.pc,
        b.mem.position == c.mem.position,
        forall|i: int| #[trigger] b.mem.bit_at(i) == c.mem.bit_at(i),
        b.input.data == c.input.data,
        b.input.offset == c.input.offset,
        b.in_pos == c.in_pos,
        b.in_bytes@ == c.in_bytes@,
        b.output.data == c.output.data,
        b.output.offset == c.output.offset,
        b.out_bytes@ == c.out_bytes@,
        b.snapshots@.len() == c.snapshots@.len(),
{
}

/// Why a run returned.
#[derive(Debug, Clone, Copy, PartialEq, Eq, Structural)]
pub enum RunStop {
    /// The counter ran past the program, or the input sentinel was read.
    Halted,
    /// The step budget ran out first.
    FuelOut,
    /// A seek stood at the edge of the position counter's range.
    PositionLimit,
}

/// A run that can go no further without leaving the position counter's
/// range: unhalted, with a seek standing at the i64 edge it would cross.
pub open spec fn seek_blocked(s: State) -> bool {
    &&& !s.halted()
    &&& match s.instructions@[s.pc as int] {
        crate::mach::Insn::Seek(crate::mach::SeekOp::Left) => s.mem.position == i64::MIN,
        crate::mach::Insn::Seek(crate::mach::SeekOp::Right) => s.mem.position == i64::MAX,
        _ => false,
    }
}

/// The starting state of a run over `insns` reading `input`.
pub open spec fn initial_state(s: State, insns: Seq<crate::mach::Insn>, input: Seq<u8>) -> bool {
    &&& s.inv()
    &&& s.pc == 0
    &&& s.instructions@ == insns
    &&& s.mem.position == 0
    &&& forall|i: int| !s.mem.bit_at(i)
    &&& s.output.data == 0 && s.output.offset == 0
    &&& s.input.data == 0 && s.input.offset == 0
    &&& s.in_bytes@ == input
    &&& s.in_pos == 0
    &&& s.out_bytes@ == Seq::<u8>::empty()
    &&& s.snapshots@ == Seq::<String>::empty()
}

impl State {
    /// Runs the fetch-execute loop until the machine halts, the step
    /// budget runs out, or a seek stands at the edge of the position
    /// counter's range; what results is always a finite chain of machine
    /// steps from the starting state.
    pub fn run(&mut self, max_steps: u64) -> (r: RunStop)
        requires
            old(self).inv(),
        ensures
            final(self).inv(),
            exists|n: nat| n <= max_steps && #[trigger] reaches(*old(self), *final(self), n),
            r == RunStop::Halted ==> final(self).halted(),
            r != RunStop::Halted ==> !final(self).halted(),
            r == RunStop::FuelOut ==> reaches(*old(self), *final(self), max_steps as nat),
            r == RunStop::PositionLimit ==> seek_blocked(*final(self)),
    {
        let ghost s0 = *self;
        proof {
            assert(reaches(s0, s0, 0));
        }
        let mut steps: u64 = 0;
        while steps < max_steps
            invariant
                self.inv(),
                steps <= max_steps,
                s0 == *old(self),
                reaches(s0, *self, steps as nat),
            decreases max_steps - steps,
        {
            if self.halt() {
                return RunStop::Halted;
            }
            let ghost pre = *self;
            match self.pc() {
                crate::mach::Insn::Seek(crate::mach::SeekOp::Left) => {
                    if self.mem.position == i64::MIN {
                        return RunStop::PositionLimit;
                    }
                    self.left();
                },
                crate::mach::Insn::Seek(crate::mach::SeekOp::Right) => {
                    if self.mem.position == i64::MAX {
                        return RunStop::PositionLimit;
                    }
                    self.right();
                },
                crate::mach::Insn::Write(crate::mach::WriteOp::SetBit) => self.set(),
                crate::mach::Insn::Write(crate::mach::WriteOp::UnsetBit) => self.unset(),
                crate::mach::Insn::Io(crate::mach::IoOp::In) => self.get(),
                crate::mach::Insn::Io(crate::mach::IoOp::Out) => self.put(),
                crate::mach::Insn::Jmp(true_addr, false_addr) => self.branch(true_addr, false_addr),
                crate::mach::Insn::Debug => self.debug(),
            }
            proof {
                assert(step_rel(pre, *self));
                lemma_reaches_step(s0, pre, *self, steps as nat);
            }
            steps = steps + 1;
        }
        if self.halt() {
            RunStop::Halted
        } else {
            RunStop::FuelOut
        }
    }
}

/// The write-then-branch scenario: over the program of `write-set`
/// followed by a jump whose both targets sit one past the end, every
/// halted state a run can reach took exactly two steps and stands at that
/// offset — a normal halt off the end — with the head bit set, the tape
/// position unmoved, and nothing read or written.
pub proof fn lemma_write_then_branch_scenario(s0: State, s1: State, n: nat)
    requires
        initial_state(
            s0,
            seq![
                crate::mach::Insn::Write(crate::mach::WriteOp::SetBit),
                crate::mach::Insn::Jmp(2, 2),
            ],
            Seq::empty(),
        ),
        reaches(s0, s1, n),
        s1.halted(),
    ensures
        n == 2,
        s1.pc == 2,
        s1.out_bytes@ == Seq::<u8>::empty(),
        s1.snapshots@ == Seq::<String>::empty(),
        s1.in_pos == 0,
        s1.mem.position == 0,
        s1.mem.bit_at(0),
{
    if n == 0 {
        assert(s1 == s0);
        assert(!s0.halted());
        assert(false);
    } else {
        let m1 = choose|mid: State|
            #[trigger] step_rel(s0, mid) && reaches(mid, s1, (n - 1) as nat);
        assert(s0.instructions@[0] == crate::mach::Insn::Write(crate::mach::WriteOp::SetBit));
        assert(m1.pc == 1);
        assert(mem_wrote(s0.mem, m1.mem, true));
        assert(input_same(s0, m1) && output_same(s0, m1));
        if n == 1 {
            assert(s1 == m1);
            assert(!m1.halted());
            assert(false);
        } else {
            let m2 = choose|mid: State|
                #[trigger] step_rel(m1, mid) && reaches(mid, s1, (n - 2) as nat);
            assert(m1.instructions@[1] == crate::mach::Insn::Jmp(2, 2));
            assert(m2.pc == 2);
            assert(mem_same(m1.mem, m2.mem));
            assert(input_same(m1, m2) && output_same(m1, m2));
            assert(m2.halted());
            if n > 2 {
                let m3 = choose|mid: State|
                    #[trigger] step_rel(m2, mid) && reaches(mid, s1, (n - 3) as nat);
                assert(!m2.halted());
                assert(false);
            }
            assert(s1 == m2);
            assert(s1.mem.position == 0);
            assert(m1.mem.bit_at(m1.mem.position as int));
            assert(s1.mem.bit_at(0));
        }
    }
}

/// The echo scenario: over the loop of `io-in`, `io-out` and a jump back
/// to the top, reading the single input byte 0x41, every halted state a
/// run can reach took exactly twenty-five steps, flushed the one output
/// byte 0x41 (its bits copied least significant first), and halted on the
/// end-of-input sentinel rather than off the end.
#[verifier::spinoff_prover]
#[verifier::rlimit(100)]
pub proof fn lemma_echo_scenario(s0: State, s1: State, n: nat)
    requires
        initial_state(
            s0,
            seq![
                crate::mach::Insn::Io(crate::mach::IoOp::In),
                crate::mach::Insn::Io(crate::mach::IoOp::Out),
                crate::mach::Insn::Jmp(0, 0),
            ],
            seq![0x41u8],
        ),
        reaches(s0, s1, n),
        s1.halted(),
    ensures
        n == 25,
        s1.pc == usize::MAX,
        s1.out_bytes@ == seq![0x41u8],
        s1.in_pos == 1,
        s1.mem.position == 0,
{
    let ghost m0 = s0;
    assert(s0.instructions@.len() == 3);
    assert(s0.instructions@[0] == crate::mach::Insn::Io(crate::mach::IoOp::In));
    assert(s0.instructions@[1] == crate::mach::Insn::Io(crate::mach::IoOp::Out));
    assert(s0.instructions@[2] == crate::mach::Insn::Jmp(0, 0));
    assert(s0.in_bytes@[0] == 0x41);
    if n == 0 {
        assert(s1 == m0);
        assert(!m0.halted());
        assert(false);
    }
    let m1 = choose|mid: State|
        #[trigger] step_rel(m0, mid) && reaches(mid, s1, (n - 1) as nat);
    assert(m1.instructions@ == s0.instructions@);
    assert(m1.in_bytes@ == seq![0x41u8]);
    assert((0x41u8 & (1u8 << 0u8)) != 0) by (bit_vector);
    assert(bb_bit(0x41u8, 0u8));
    assert(m1.input.data == 0x41 && m1.input.offset == 1);
    assert(m1.pc == 1 && m1.in_pos == 1);
    assert(m1.mem.position == 0);
    assert(m1.mem.bit_at(0) == true);
    assert forall|i: int| i != 0 implies !m1.mem.bit_at(i) by {
        assert(m1.mem.bit_at(i) == m0.mem.bit_at(i));
    }
    assert(m1.output.data == 0 && m1.output.offset == 0);
    assert(m1.out_bytes@ == m0.out_bytes@);
    if n == 1 {
        assert(s1 == m1);
        assert(!m1.halted());
        assert(false);
    }
    let m2 = choose|mid: State|
        #[trigger] step_rel(m1, mid) && reaches(mid, s1, (n - 2) as nat);
    assert(m2.instructions@ == s0.instructions@);
    assert(m2.in_bytes@ == seq![0x41u8]);
    assert(m1.mem.bit_at(m1.mem.position as int) == true);
    assert((0u8 | (1u8 << 0u8)) == 1u8) by (bit_vector);
    assert(m2.output.data == 1 && m2.output.offset == 1);
    assert(m2.out_bytes@ == m1.out_bytes@);
    assert(m2.pc == 2);
    assert(m2.mem.position == 0 && m2.mem.bit_at(0) == true);
    assert forall|i: int| i != 0 implies !m2.mem.bit_at(i) by {
        assert(m2.mem.bit_at(i) == m1.mem.bit_at(i));
    }
    assert(m2.input.data == 0x41 && m2.input.offset == 1 && m2.in_pos == 1);
    if n == 2 {
        assert(s1 == m2);
        assert(!m2.halted());
        assert(false);
    }
    let m3 = choose|mid: State|
        #[trigger] step_rel(m2, mid) && reaches(mid, s1, (n - 3) as nat);
    assert(m3.instructions@ == s0.instructions@);
    assert(m3.in_bytes@ == seq![0x41u8]);
    assert(m3.pc == 0);
    assert(m3.mem.position == 0 && m3.mem.bit_at(0) == true);
    assert forall|i: int| i != 0 implies !m3.mem.bit_at(i) by {
        assert(m3.mem.bit_at(i) == m2.mem.bit_at(i));
    }
    assert(m3.input.data == 0x41 && m3.input.offset == 1 && m3.in_pos == 1);
    assert(m3.output.data == 1 && m3.output.offset == 1);
    assert(m3.out_bytes@ == m2.out_bytes@);
    if n == 3 {
        assert(s1 == m3);
        assert(!m3.halted());
        assert(false);
    }
    let m4 = choose|mid: State|
        #[trigger] step_rel(m3, mid) && reaches(mid, s1, (n - 4) as nat);
    assert(m4.instructions@ == s0.instructions@);
    assert(m4.in_bytes@ == seq![0x41u8]);
    assert((0x41u8 & (1u8 << 1u8)) == 0) by (bit_vector);
    assert(bb_bit(0x41u8, 1u8) == false);
    assert(m4.input.data == 0x41 && m4.input.offset == 2);
    assert(m4.pc == 1 && m4.in_pos == 1);
    assert(m4.mem.position == 0);
    assert(m4.mem.bit_at(0) == false);
    assert forall|i: int| i != 0 implies !m4.mem.bit_at(i) by {
        assert(m4.mem.bit_at(i) == m3.mem.bit_at(i));
    }
    assert(m4.output.data == 1 && m4.output.offset == 1);
    assert(m4.out_bytes@ == m3.out_bytes@);
    if n == 4 {
        assert(s1 == m4);
        assert(!m4.halted());
        assert(false);
    }
    let m5 = choose|mid: State|
        #[trigger] step_rel(m4, mid) && reaches(mid, s1, (n - 5) as nat);
    assert(m5.instructions@ == s0.instructions@);
    assert(m5.in_bytes@ == seq![0x41u8]);
    assert(m4.mem.bit_at(m4.mem.position as int) == false);
    assert((1u8 & !(1u8 << 1u8)) == 1u8) by (bit_vector);
    assert(m5.output.data == 1 && m5.output.offset == 2);
    assert(m5.out_bytes@ == m4.out_bytes@);
    assert(m5.pc == 2);
    assert(m5.mem.position == 0 && m5.mem.bit_at(0) == false);
    assert forall|i: int| i != 0 implies !m5.mem.bit_at(i) by {
        assert(m5.mem.bit_at(i) == m4.mem.bit_at(i));
    }
    assert(m5.input.data == 0x41 && m5.input.offset == 2 && m5.in_pos == 1);
    if n == 5 {
        assert(s1 == m5);
        assert(!m5.halted());
        assert(false);
    }
    let m6 = choose|mid: State|
        #[trigger] step_rel(m5, mid) && reaches(mid, s1, (n - 6) as nat);
    assert(m6.instructions@ == s0.instructions@);
    assert(m6.in_bytes@ == seq![0x41u8]);
    assert(m6.pc == 0);
    assert(m6.mem.position == 0 && m6.mem.bit_at(0) == false);
    assert forall|i: int| i != 0 implies !m6.mem.bit_at(i) by {
        assert(m6.mem.bit_at(i) == m5.mem.bit_at(i));
    }
    assert(m6.input.data == 0x41 && m6.input.offset == 2 && m6.in_pos == 1);
    assert(m6.output.data == 1 && m6.output.offset == 2);
    assert(m6.out_bytes@ == m5.out_bytes@);
    if n == 6 {
        assert(s1 == m6);
        assert(!m6.halted());
        assert(false);
    }
    let m7 = choose|mid: State|
        #[trigger] step_rel(m6, mid) && reaches(mid, s1, (n - 7) as nat);
    assert(m7.instructions@ == s0.instructions@);
    assert(m7.in_bytes@ == seq![0x41u8]);
    assert((0x41u8 & (1u8 << 2u8)) == 0) by (bit_vector);
    assert(bb_bit(0x41u8, 2u8) == false);
    assert(m7.input.data == 0x41 && m7.input.offset == 3);
    assert(m7.pc == 1 && m7.in_pos == 1);
    assert(m7.mem.position == 0);
    assert(m7.mem.bit_at(0) == false);
    assert forall|i: int| i != 0 implies !m7.mem.bit_at(i) by {
        assert(m7.mem.bit_at(i) == m6.mem.bit_at(i));
    }
    assert(m7.output.data == 1 && m7.output.offset == 2);
    assert(m7.out_bytes@ == m6.out_bytes@);
    if n == 7 {
        assert(s1 == m7);
        assert(!m7.halted());
        assert(false);
    }
    let m8 = choose|mid: State|
        #[trigger] step_rel(m7, mid) && reaches(mid, s1, (n - 8) as nat);
    assert(m8.instructions@ == s0.instructions@);
    assert(m8.in_bytes@ == seq![0x41u8]);
    assert(m7.mem.bit_at(m7.mem.position as int) == false);
    assert((1u8 & !(1u8 << 2u8)) == 1u8) by (bit_vector);
    assert(m8.output.data == 1 && m8.output.offset == 3);
    assert(m8.out_bytes@ == m7.out_bytes@);
    assert(m8.pc == 2);
    assert(m8.mem.position == 0 && m8.mem.bit_at(0) == false);
    assert forall|i: int| i != 0 implies !m8.mem.bit_at(i) by {
        assert(m8.mem.bit_at(i) == m7.mem.bit_at(i));
    }
    assert(m8.input.data == 0x41 && m8.input.offset == 3 && m8.in_pos == 1);
    if n == 8 {
        assert(s1 == m8);
        assert(!m8.halted());
        assert(false);
    }
    let m9 = choose|mid: State|
        #[trigger] step_rel(m8, mid) && reaches(mid, s1, (n - 9) as nat);
    assert(m9.instructions@ == s0.instructions@);
    assert(m9.in_bytes@ == seq![0x41u8]);
    assert(m9.pc == 0);
    assert(m9.mem.position == 0 && m9.mem.bit_at(0) == false);
    assert forall|i: int| i != 0 implies !m9.mem.bit_at(i) by {
        assert(m9.mem.bit_at(i) == m8.mem.bit_at(i));
    }
    assert(m9.input.data == 0x41 && m9.input.offset == 3 && m9.in_pos == 1);
    assert(m9.output.data == 1 && m9.output.offset == 3);
    assert(m9.out_bytes@ == m8.out_bytes@);
    if n == 9 {
        assert(s1 == m9);
        assert(!m9.halted());
        assert(false);
    }
    let m10 = choose|mid: State|
        #[trigger] step_rel(m9, mid) && reaches(mid, s1, (n - 10) as nat);
    assert(m10.instructions@ == s0.instructions@);
    assert(m10.in_bytes@ == seq![0x41u8]);
    assert((0x41u8 & (1u8 << 3u8)) == 0) by (bit_vector);
    assert(bb_bit(0x41u8, 3u8) == false);
    assert(m10.input.data == 0x41 && m10.input.offset == 4);
    assert(m10.pc == 1 && m10.in_pos == 1);
    assert(m10.mem.position == 0);
    assert(m10.mem.bit_at(0) == false);
    assert forall|i: int| i != 0 implies !m10.mem.bit_at(i) by {
        assert(m10.mem.bit_at(i) == m9.mem.bit_at(i));
    }
    assert(m10.output.data == 1 && m10.output.offset == 3);
    assert(m10.out_bytes@ == m9.out_bytes@);
    if n == 10 {
        assert(s1 == m10);
        assert(!m10.halted());
        assert(false);
    }
    let m11 = choose|mid: State|
        #[trigger] step_rel(m10, mid) && reaches(mid, s1, (n - 11) as nat);
    assert(m11.instructions@ == s0.instructions@);
    assert(m11.in_bytes@ == seq![0x41u8]);
    assert(m10.mem.bit_at(m10.mem.position as int) == false);
    assert((1u8 & !(1u8 << 3u8)) == 1u8) by (bit_vector);
    assert(m11.output.data == 1 && m11.output.offset == 4);
    assert(m11.out_bytes@ == m10.out_bytes@);
    assert(m11.pc == 2);
    assert(m11.mem.position == 0 && m11.mem.bit_at(0) == false);
    assert forall|i: int| i != 0 implies !m11.mem.bit_at(i) by {
        assert(m11.mem.bit_at(i) == m10.mem.bit_at(i));
    }
    assert(m11.input.data == 0x41 && m11.input.offset == 4 && m11.in_pos == 1);
    if n == 11 {
        assert(s1 == m11);
        assert(!m11.halted());
        assert(false);
    }
    let m12 = choose|mid: State|
        #[trigger] step_rel(m11, mid) && reaches(mid, s1, (n - 12) as nat);
    assert(m12.instructions@ == s0.instructions@);
    assert(m12.in_bytes@ == seq![0x41u8]);
    assert(m12.pc == 0);
    assert(m12.mem.position == 0 && m12.mem.bit_at(0) == false);
    assert forall|i: int| i != 0 implies !m12.mem.bit_at(i) by {
        assert(m12.mem.bit_at(i) == m11.mem.bit_at(i));
    }
    assert(m12.input.data == 0x41 && m12.input.offset == 4 && m12.in_pos == 1);
    assert(m12.output.data == 1 && m12.output.offset == 4);
    assert(m12.out_bytes@ == m11.out_bytes@);
    if n == 12 {
        assert(s1 == m12);
        assert(!m12.halted());
        assert(false);
    }
    let m13 = choose|mid: State|
        #[trigger] step_rel(m12, mid) && reaches(mid, s1, (n - 13) as nat);
    assert(m13.instructions@ == s0.instructions@);
    assert(m13.in_bytes@ == seq![0x41u8]);
    assert((0x41u8 & (1u8 << 4u8)) == 0) by (bit_vector);
    assert(bb_bit(0x41u8, 4u8) == false);
    assert(m13.input.data == 0x41 && m13.input.offset == 5);
    assert(m13.pc == 1 && m13.in_pos == 1);
    assert(m13.mem.position == 0);
    assert(m13.mem.bit_at(0) == false);
    assert forall|i: int| i != 0 implies !m13.mem.bit_at(i) by {
        assert(m13.mem.bit_at(i) == m12.mem.bit_at(i));
    }
    assert(m13.output.data == 1 && m13.output.offset == 4);
    assert(m13.out_bytes@ == m12.out_bytes@);
    if n == 13 {
        assert(s1 == m13);
        assert(!m13.halted());
        assert(false);
    }
    let m14 = choose|mid: State|
        #[trigger] step_rel(m13, mid) && reaches(mid, s1, (n - 14) as nat);
    assert(m14.instructions@ == s0.instructions@);
    assert(m14.in_bytes@ == seq![0x41u8]);
    assert(m13.mem.bit_at(m13.mem.position as int) == false);
    assert((1u8 & !(1u8 << 4u8)) == 1u8) by (bit_vector);
    assert(m14.output.data == 1 && m14.output.offset == 5);
    assert(m14.out_bytes@ == m13.out_bytes@);
    assert(m14.pc == 2);
    assert(m14.mem.position == 0 && m14.mem.bit_at(0) == false);
    assert forall|i: int| i != 0 implies !m14.mem.bit_at(i) by {
        assert(m14.mem.bit_at(i) == m13.mem.bit_at(i));
    }
    assert(m14.input.data == 0x41 && m14.input.offset == 5 && m14.in_pos == 1);
    if n == 14 {
        assert(s1 == m14);
        assert(!m14.halted());
        assert(false);
    }
    let m15 = choose|mid: State|
        #[trigger] step_rel(m14, mid) && reaches(mid, s1, (n - 15) as nat);
    assert(m15.instructions@ == s0.instructions@);
    assert(m15.in_bytes@ == seq![0x41u8]);
    assert(m15.pc == 0);
    assert(m15.mem.position == 0 && m15.mem.bit_at(0) == false);
    assert forall|i: int| i != 0 implies !m15.mem.bit_at(i) by {
        assert(m15.mem.bit_at(i) == m14.mem.bit_at(i));
    }
    assert(m15.input.data == 0x41 && m15.input.offset == 5 && m15.in_pos == 1);
    assert(m15.output.data == 1 && m15.output.offset == 5);
    assert(m15.out_bytes@ == m14.out_bytes@);
    if n == 15 {
        assert(s1 == m15);
        assert(!m15.halted());
        assert(false);
    }
    let m16 = choose|mid: State|
        #[trigger] step_rel(m15, mid) && reaches(mid, s1, (n - 16) as nat);
    assert(m16.instructions@ == s0.instructions@);
    assert(m16.in_bytes@ == seq![0x41u8]);
    assert((0x41u8 & (1u8 << 5u8)) == 0) by (bit_vector);
    assert(bb_bit(0x41u8, 5u8) == false);
    assert(m16.input.data == 0x41 && m16.input.offset == 6);
    assert(m16.pc == 1 && m16.in_pos == 1);
    assert(m16.mem.position == 0);
    assert(m16.mem.bit_at(0) == false);
    assert forall|i: int| i != 0 implies !m16.mem.bit_at(i) by {
        assert(m16.mem.bit_at(i) == m15.mem.bit_at(i));
    }
    assert(m16.output.data == 1 && m16.output.offset == 5);
    assert(m16.out_bytes@ == m15.out_bytes@);
    if n == 16 {
        assert(s1 == m16);
        assert(!m16.halted());
        assert(false);
    }
    let m17 = choose|mid: State|
        #[trigger] step_rel(m16, mid) && reaches(mid, s1, (n - 17) as nat);
    assert(m17.instructions@ == s0.instructions@);
    assert(m17.in_bytes@ == seq![0x41u8]);
    assert(m16.mem.bit_at(m16.mem.position as int) == false);
    assert((1u8 & !(1u8 << 5u8)) == 1u8) by (bit_vector);
    assert(m17.output.data == 1 && m17.output.offset == 6);
    assert(m17.out_bytes@ == m16.out_bytes@);
    assert(m17.pc == 2);
    assert(m17.mem.position == 0 && m17.mem.bit_at(0) == false);
    assert forall|i: int| i != 0 implies !m17.mem.bit_at(i) by {
        assert(m17.mem.bit_at(i) == m16.mem.bit_at(i));
    }
    assert(m17.input.data == 0x41 && m17.input.offset == 6 && m17.in_pos == 1);
    if n == 17 {
        assert(s1 == m17);
        assert(!m17.halted());
        assert(false);
    }
    let m18 = choose|mid: State|
        #[trigger] step_rel(m17, mid) && reaches(mid, s1, (n - 18) as nat);
    assert(m18.instructions@ == s0.instructions@);
    assert(m18.in_bytes@ == seq![0x41u8]);
    assert(m18.pc == 0);
    assert(m18.mem.position == 0 && m18.mem.bit_at(0) == false);
    assert forall|i: int| i != 0 implies !m18.mem.bit_at(i) by {
        assert(m18.mem.bit_at(i) == m17.mem.bit_at(i));
    }
    assert(m18.input.data == 0x41 && m18.input.offset == 6 && m18.in_pos == 1);
    assert(m18.output.data == 1 && m18.output.offset == 6);
    assert(m18.out_bytes@ == m17.out_bytes@);
    if n == 18 {
        assert(s1 == m18);
        assert(!m18.halted());
        assert(false);
    }
    let m19 = choose|mid: State|
        #[trigger] step_rel(m18, mid) && reaches(mid, s1, (n - 19) as nat);
    assert(m19.instructions@ == s0.instructions@);
    assert(m19.in_bytes@ == seq![0x41u8]);
    assert((0x41u8 & (1u8 << 6u8)) != 0) by (bit_vector);
    assert(bb_bit(0x41u8, 6u8) == true);
    assert(m19.input.data == 0x41 && m19.input.offset == 7);
    assert(m19.pc == 1 && m19.in_pos == 1);
    assert(m19.mem.position == 0);
    assert(m19.mem.bit_at(0) == true);
    assert forall|i: int| i != 0 implies !m19.mem.bit_at(i) by {
        assert(m19.mem.bit_at(i) == m18.mem.bit_at(i));
    }
    assert(m19.output.data == 1 && m19.output.offset == 6);
    assert(m19.out_bytes@ == m18.out_bytes@);
    if n == 19 {
        assert(s1 == m19);
        assert(!m19.halted());
        assert(false);
    }
    let m20 = choose|mid: State|
        #[trigger] step_rel(m19, mid) && reaches(mid, s1, (n - 20) as nat);
    assert(m20.instructions@ == s0.instructions@);
    assert(m20.in_bytes@ == seq![0x41u8]);
    assert(m19.mem.bit_at(m19.mem.position as int) == true);
    assert((1u8 | (1u8 << 6u8)) == 65u8) by (bit_vector);
    assert(m20.output.data == 65 && m20.output.offset == 7);
    assert(m20.out_bytes@ == m19.out_bytes@);
    assert(m20.pc == 2);
    assert(m20.mem.position == 0 && m20.mem.bit_at(0) == true);
    assert forall|i: int| i != 0 implies !m20.mem.bit_at(i) by {
        assert(m20.mem.bit_at(i) == m19.mem.bit_at(i));
    }
    assert(m20.input.data == 0x41 && m20.input.offset == 7 && m20.in_pos == 1);
    if n == 20 {
        assert(s1 == m20);
        assert(!m20.halted());
        assert(false);
    }
    let m21 = choose|mid: State|
        #[trigger] step_rel(m20, mid) && reaches(mid, s1, (n - 21) as nat);
    assert(m21.instructions@ == s0.instructions@);
    assert(m21.in_bytes@ == seq![0x41u8]);
    assert(m21.pc == 0);
    assert(m21.mem.position == 0 && m21.mem.bit_at(0) == true);
    assert forall|i: int| i != 0 implies !m21.mem.bit_at(i) by {
        assert(m21.mem.bit_at(i) == m20.mem.bit_at(i));
    }
    assert(m21.input.data == 0x41 && m21.input.offset == 7 && m21.in_pos == 1);
    assert(m21.output.data == 65 && m21.output.offset == 7);
    assert(m21.out_bytes@ == m20.out_bytes@);
    if n == 21 {
        assert(s1 == m21);
        assert(!m21.halted());
        assert(false);
    }
    let m22 = choose|mid: State|
        #[trigger] step_rel(m21, mid) && reaches(mid, s1, (n - 22) as nat);
    assert(m22.instructions@ == s0.instructions@);
    assert(m22.in_bytes@ == seq![0x41u8]);
    assert((0x41u8 & (1u8 << 7u8)) == 0) by (bit_vector);
    assert(bb_bit(0x41u8, 7u8) == false);
    assert(m22.input.data == 0xff && m22.input.offset == 0);
    assert(m22.pc == 1 && m22.in_pos == 1);
    assert(m22.mem.position == 0);
    assert(m22.mem.bit_at(0) == false);
    assert forall|i: int| i != 0 implies !m22.mem.bit_at(i) by {
        assert(m22.mem.bit_at(i) == m21.mem.bit_at(i));
    }
    assert(m22.output.data == 65 && m22.output.offset == 7);
    assert(m22.out_bytes@ == m21.out_bytes@);
    if n == 22 {
        assert(s1 == m22);
        assert(!m22.halted());
        assert(false);
    }
    let m23 = choose|mid: State|
        #[trigger] step_rel(m22, mid) && reaches(mid, s1, (n - 23) as nat);
    assert(m23.instructions@ == s0.instructions@);
    assert(m23.in_bytes@ == seq![0x41u8]);
    assert(m22.mem.bit_at(m22.mem.position as int) == false);
    assert((0x41u8 & !(1u8 << 7u8)) == 0x41u8) by (bit_vector);
    assert(m23.output.data == 0 && m23.output.offset == 0);
    assert(m23.out_bytes@ =~= seq![0x41u8]);
    assert(m23.pc == 2);
    assert(m23.mem.position == 0 && m23.mem.bit_at(0) == false);
    assert forall|i: int| i != 0 implies !m23.mem.bit_at(i) by {
        assert(m23.mem.bit_at(i) == m22.mem.bit_at(i));
    }
    assert(m23.input.data == 0xff && m23.input.offset == 0 && m23.in_pos == 1);
    if n == 23 {
        assert(s1 == m23);
        assert(!m23.halted());
        assert(false);
    }
    let m24 = choose|mid: State|
        #[trigger] step_rel(m23, mid) && reaches(mid, s1, (n - 24) as nat);
    assert(m24.instructions@ == s0.instructions@);
    assert(m24.in_bytes@ == seq![0x41u8]);
    assert(m24.pc == 0);
    assert(m24.mem.position == 0 && m24.mem.bit_at(0) == false);
    assert forall|i: int| i != 0 implies !m24.mem.bit_at(i) by {
        assert(m24.mem.bit_at(i) == m23.mem.bit_at(i));
    }
    assert(m24.input.data == 0xff && m24.input.offset == 0 && m24.in_pos == 1);
    assert(m24.output.data == 0 && m24.output.offset == 0);
    assert(m24.out_bytes@ == m23.out_bytes@);
    if n == 24 {
        assert(s1 == m24);
        assert(!m24.halted());
        assert(false);
    }
    let m25 = choose|mid: State|
        #[trigger] step_rel(m24, mid) && reaches(mid, s1, (n - 25) as nat);
    assert(m24.instructions@[0] == crate::mach::Insn::Io(crate::mach::IoOp::In));
    assert(m25.pc == usize::MAX);
    assert(m25.in_pos == 1);
    assert(m25.out_bytes@ == m24.out_bytes@);
    assert(m25.mem.position == 0);
    assert(m25.instructions@ == s0.instructions@);
    assert(m25.halted());
    if n > 25 {
        let m26 = choose|mid: State|
            #[trigger] step_rel(m25, mid) && reaches(mid, s1, (n - 26) as nat);
        assert(!m25.halted());
        assert(false);
    }
    assert(n == 25);
    assert(s1 == m25);
    assert(s1.out_bytes@ =~= seq![0x41u8]);
}

/// Interprets a resolved program over a fixed input with a step budget,
/// yielding the output bytes it flushed: the bytes of some state a finite
/// chain of machine steps away from the starting state.
pub fn interpret(program: crate::mach::Program, input: Vec<u8>, max_steps: u64) -> (r: (
    Vec<u8>,
    RunStop,
))
    ensures
        exists|s0: State, s1: State, n: nat|
            {
                &&& initial_state(s0, program.instructions@, input@)
                &&& n <= max_steps
                &&& #[trigger] reaches(s0, s1, n)
                &&& r.0@ == s1.out_bytes@
                &&& (r.1 == RunStop::Halted <==> s1.halted())
                &&& (r.1 == RunStop::FuelOut ==> n == max_steps)
                &&& (r.1 == RunStop::PositionLimit ==> seek_blocked(s1))
            },
{
    let mut s = State::new(program.instructions, input);
    let ghost s0 = s;
    let stop = s.run(max_steps);
    proof {
        let n: nat = if stop == RunStop::FuelOut {
            max_steps as nat
        } else {
            choose|n: nat| n <= max_steps && #[trigger] reaches(s0, s, n)
        };
        assert({
            &&& initial_state(s0, program.instructions@, input@)
            &&& n <= max_steps
            &&& reaches(s0, s, n)
            &&& s.out_bytes@ == s.out_bytes@
            &&& (stop == RunStop::Halted <==> s.halted())
            &&& (stop == RunStop::FuelOut ==> n == max_steps)
            &&& (stop == RunStop::PositionLimit ==> seek_blocked(s))
        });
    }
    (s.out_bytes, stop)
}

} // verus!
