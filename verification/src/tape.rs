//! The cell store of a running program: unbounded in both directions,
//! zero-initialised, with wrapping cell arithmetic.
//!
//! A tape is modelled by [`TapeView`]: the cells that exist to the left of
//! the origin, those from the origin rightwards, and the position of the
//! cursor. Cells that do not exist yet read as zero.

use vstd::prelude::*;
use vstd::arithmetic::div_mod::{
    lemma_add_mod_noop, lemma_fundamental_div_mod, lemma_mod_bound, lemma_mod_multiples_vanish,
    lemma_mod_twice, lemma_small_mod,
};

verus! {

/// The integer type of one cell. Changing this alias changes the cell width.
pub type CellSize = i32;

/// Number of distinct values of a cell.
pub open spec fn cell_modulus() -> int {
    CellSize::MAX - CellSize::MIN + 1
}

/// The number in the range of `count` numbers from `low` on that is
/// congruent to `x` modulo `count`.
pub open spec fn wrap_into(low: int, count: int, x: int) -> int {
    (x - low) % count + low
}

/// The cell value congruent to `x` modulo the number of cell values.
pub open spec fn wrap_cell(x: int) -> CellSize {
    wrap_into(CellSize::MIN as int, cell_modulus(), x) as CellSize
}

/// Number of `+` steps minus number of `-` steps in `ops`, where `true` is
/// `+` and `false` is `-`.
pub open spec fn net_count(ops: Seq<bool>) -> int
    decreases ops.len(),
{
    if ops.len() == 0 {
        0
    } else if ops[0] {
        1 + net_count(ops.drop_first())
    } else {
        net_count(ops.drop_first()) - 1
    }
}

/// The value of a cell that held `start` after the steps `ops`, each of
/// which wraps in the range of `count` numbers from `low` on.
pub open spec fn stepped(low: int, count: int, start: int, ops: Seq<bool>) -> int
    decreases ops.len(),
{
    if ops.len() == 0 {
        start
    } else if ops[0] {
        stepped(low, count, wrap_into(low, count, start + 1), ops.drop_first())
    } else {
        stepped(low, count, wrap_into(low, count, start - 1), ops.drop_first())
    }
}

/// `wrap_into` lands in its range, is congruent to its argument and leaves
/// the numbers of the range alone.
pub proof fn lemma_wrap_into(low: int, count: int, x: int)
    requires
        count > 0,
    ensures
        low <= wrap_into(low, count, x) < low + count,
        (wrap_into(low, count, x) - x) % count == 0,
        low <= x < low + count ==> wrap_into(low, count, x) == x,
{
    let y = x - low;
    lemma_mod_bound(y, count);
    assert((y % count - y) % count == 0) by {
        lemma_fundamental_div_mod(y, count);
        assert(y % count - y == count * (-(y / count))) by (nonlinear_arith)
            requires
                y == count * (y / count) + y % count,
        ;
        lemma_mod_multiples_vanish(-(y / count), 0, count);
        lemma_small_mod(0, count as nat);
    }
    if low <= x < low + count {
        lemma_small_mod(y as nat, count as nat);
    }
}

/// Wrapping a sum is wrapping the sum of a wrapped term.
pub proof fn lemma_wrap_into_absorb(low: int, count: int, x: int, d: int)
    requires
        count > 0,
    ensures
        wrap_into(low, count, wrap_into(low, count, x) + d) == wrap_into(low, count, x + d),
{
    let y = x - low;
    assert((y % count + d) % count == (y + d) % count) by {
        lemma_add_mod_noop(y, d, count);
        lemma_add_mod_noop(y % count, d, count);
        lemma_mod_twice(y, count);
    }
}

/// Wraparound, for any width: after any sequence of `+` and `-` a cell
/// holds its old value plus the net count, modulo the number of values.
pub proof fn lemma_wraparound(low: int, count: int, start: int, ops: Seq<bool>)
    requires
        count > 0,
        low <= start < low + count,
    ensures
        stepped(low, count, start, ops) == wrap_into(low, count, start + net_count(ops)),
    decreases ops.len(),
{
    if ops.len() == 0 {
        lemma_wrap_into(low, count, start);
    } else {
        let d: int = if ops[0] {
            1
        } else {
            -1
        };
        lemma_wrap_into(low, count, start + d);
        lemma_wraparound(low, count, wrap_into(low, count, start + d), ops.drop_first());
        lemma_wrap_into_absorb(low, count, start + d, net_count(ops.drop_first()));
    }
}

/// Wraparound for cells of 8, 16 and 32 bits: the result of the steps is
/// the old value plus the net count modulo 2^8, 2^16 and 2^32.
pub proof fn lemma_wraparound_widths(start: int, ops: Seq<bool>)
    ensures
        i8::MIN <= start <= i8::MAX ==> stepped(i8::MIN as int, 0x100, start, ops) == wrap_into(
            i8::MIN as int,
            0x100,
            start + net_count(ops),
        ),
        i16::MIN <= start <= i16::MAX ==> stepped(i16::MIN as int, 0x1_0000, start, ops)
            == wrap_into(i16::MIN as int, 0x1_0000, start + net_count(ops)),
        i32::MIN <= start <= i32::MAX ==> stepped(i32::MIN as int, 0x1_0000_0000, start, ops)
            == wrap_into(i32::MIN as int, 0x1_0000_0000, start + net_count(ops)),
{
    if i8::MIN <= start <= i8::MAX {
        lemma_wraparound(i8::MIN as int, 0x100, start, ops);
    }
    if i16::MIN <= start <= i16::MAX {
        lemma_wraparound(i16::MIN as int, 0x1_0000, start, ops);
    }
    if i32::MIN <= start <= i32::MAX {
        lemma_wraparound(i32::MIN as int, 0x1_0000_0000, start, ops);
    }
}

/// `wrap_cell` is congruent to its argument and leaves cell values alone.
pub proof fn lemma_wrap_cell(x: int)
    ensures
        (wrap_cell(x) - x) % cell_modulus() == 0,
        CellSize::MIN <= x <= CellSize::MAX ==> wrap_cell(x) == x,
{
    lemma_wrap_into(CellSize::MIN as int, cell_modulus(), x);
}

/// The low eight bits of a cell value, as the byte that is written out.
pub open spec fn low_byte(v: CellSize) -> u8 {
    (v as int % 256) as u8
}

/// The model of a tape.
pub struct TapeView {
    /// Cells at positions -1, -2, ... in that order.
    pub left: Seq<CellSize>,
    /// Cells at positions 0, 1, ... in that order.
    pub right: Seq<CellSize>,
    /// Position of the cursor; the origin is 0.
    pub cursor: int,
}

impl TapeView {
    /// The tape of a program that has not run yet: one zero cell under the cursor.
    pub open spec fn blank() -> TapeView {
        TapeView { left: Seq::empty(), right: seq![0i32], cursor: 0 }
    }

    /// The origin exists and the cursor stands on an existing cell.
    pub open spec fn wf(self) -> bool {
        &&& self.right.len() >= 1
        &&& self.lowest() <= self.cursor <= self.highest()
    }

    /// Position of the leftmost existing cell.
    pub open spec fn lowest(self) -> int {
        -(self.left.len() as int)
    }

    /// Position of the rightmost existing cell.
    pub open spec fn highest(self) -> int {
        self.right.len() - 1
    }

    /// Value of the cell at position `p`; zero where no cell exists yet.
    pub open spec fn value_at(self, p: int) -> CellSize {
        if 0 <= p < self.right.len() {
            self.right[p]
        } else if self.lowest() <= p < 0 {
            self.left[-p - 1]
        } else {
            0
        }
    }

    /// Value of the cell under the cursor.
    pub open spec fn current(self) -> CellSize {
        self.value_at(self.cursor)
    }

    /// The tape with the cell under the cursor replaced by `v`.
    pub open spec fn with_current(self, v: CellSize) -> TapeView {
        if self.cursor >= 0 {
            TapeView { right: self.right.update(self.cursor, v), ..self }
        } else {
            TapeView { left: self.left.update(-self.cursor - 1, v), ..self }
        }
    }

    /// The tape after `+`.
    pub open spec fn incremented(self) -> TapeView {
        self.with_current(wrap_cell(self.current() + 1))
    }

    /// The tape after `-`.
    pub open spec fn decremented(self) -> TapeView {
        self.with_current(wrap_cell(self.current() - 1))
    }

    /// The tape after `>`: the cursor one to the right, on a new zero cell
    /// where it stood on the rightmost one.
    pub open spec fn moved_right(self) -> TapeView {
        if self.cursor == self.highest() {
            TapeView { right: self.right.push(0), cursor: self.cursor + 1, ..self }
        } else {
            TapeView { cursor: self.cursor + 1, ..self }
        }
    }

    /// The tape after `<`: the cursor one to the left, on a new zero cell
    /// where it stood on the leftmost one.
    pub open spec fn moved_left(self) -> TapeView {
        if self.cursor == self.lowest() {
            TapeView { left: self.left.push(0), cursor: self.cursor - 1, ..self }
        } else {
            TapeView { cursor: self.cursor - 1, ..self }
        }
    }

    /// The tape after `n` moves to the right.
    pub open spec fn moved_right_by(self, n: nat) -> TapeView
        decreases n,
    {
        if n == 0 {
            self
        } else {
            self.moved_right().moved_right_by((n - 1) as nat)
        }
    }

    /// The tape after `n` moves to the left.
    pub open spec fn moved_left_by(self, n: nat) -> TapeView
        decreases n,
    {
        if n == 0 {
            self
        } else {
            self.moved_left().moved_left_by((n - 1) as nat)
        }
    }

    /// The tape after the steps of `ops` on the cell under the cursor, in
    /// order: `true` is `+`, `false` is `-`.
    pub open spec fn adjusted(self, ops: Seq<bool>) -> TapeView
        decreases ops.len(),
    {
        if ops.len() == 0 {
            self
        } else if ops[0] {
            self.incremented().adjusted(ops.drop_first())
        } else {
            self.decremented().adjusted(ops.drop_first())
        }
    }
}

/// A step on the cell under the cursor changes that cell and nothing else.
pub proof fn lemma_with_current(t: TapeView, v: CellSize)
    requires
        t.wf(),
    ensures
        t.with_current(v).wf(),
        t.with_current(v).cursor == t.cursor,
        t.with_current(v).lowest() == t.lowest(),
        t.with_current(v).highest() == t.highest(),
        t.with_current(v).current() == v,
        forall|p: int| p != t.cursor ==> t.with_current(v).value_at(p) == t.value_at(p),
{
}

/// A move keeps every cell's value, shifts the cursor by one and creates at
/// most one cell, next to the boundary that was crossed.
pub proof fn lemma_move(t: TapeView)
    requires
        t.wf(),
    ensures
        t.moved_right().wf(),
        t.moved_right().cursor == t.cursor + 1,
        t.moved_right().lowest() == t.lowest(),
        t.moved_right().highest() == if t.cursor == t.highest() {
            t.highest() + 1
        } else {
            t.highest()
        },
        forall|p: int| t.moved_right().value_at(p) == t.value_at(p),
        t.moved_left().wf(),
        t.moved_left().cursor == t.cursor - 1,
        t.moved_left().highest() == t.highest(),
        t.moved_left().lowest() == if t.cursor == t.lowest() {
            t.lowest() - 1
        } else {
            t.lowest()
        },
        forall|p: int| t.moved_left().value_at(p) == t.value_at(p),
{
}

/// `n` moves in one direction shift the cursor by `n`, keep every cell's
/// value and never remove a cell.
pub proof fn lemma_moves(t: TapeView, n: nat)
    requires
        t.wf(),
    ensures
        t.moved_right_by(n).wf(),
        t.moved_right_by(n).cursor == t.cursor + n,
        t.moved_right_by(n).lowest() == t.lowest(),
        t.moved_right_by(n).highest() >= t.highest(),
        forall|p: int| t.moved_right_by(n).value_at(p) == t.value_at(p),
        t.moved_left_by(n).wf(),
        t.moved_left_by(n).cursor == t.cursor - n,
        t.moved_left_by(n).highest() == t.highest(),
        t.moved_left_by(n).lowest() <= t.lowest(),
        forall|p: int| t.moved_left_by(n).value_at(p) == t.value_at(p),
    decreases n,
{
    if n > 0 {
        lemma_move(t);
        lemma_moves(t.moved_right(), (n - 1) as nat);
        lemma_moves(t.moved_left(), (n - 1) as nat);
    }
}

/// Round trip: after `n` moves away in one direction and `n` moves back the
/// cursor stands where it stood, and every cell, the one under the cursor
/// among them, holds the value it held before.
pub proof fn lemma_round_trip(t: TapeView, n: nat)
    requires
        t.wf(),
    ensures
        t.moved_right_by(n).moved_left_by(n).cursor == t.cursor,
        t.moved_right_by(n).moved_left_by(n).current() == t.current(),
        forall|p: int| t.moved_right_by(n).moved_left_by(n).value_at(p) == t.value_at(p),
        t.moved_left_by(n).moved_right_by(n).cursor == t.cursor,
        t.moved_left_by(n).moved_right_by(n).current() == t.current(),
        forall|p: int| t.moved_left_by(n).moved_right_by(n).value_at(p) == t.value_at(p),
{
    lemma_moves(t, n);
    lemma_moves(t.moved_right_by(n), n);
    lemma_moves(t.moved_left_by(n), n);
}

/// Wraparound: after any sequence of `+` and `-` the cell under the cursor
/// holds its old value plus the net count, modulo the number of cell
/// values; the cursor and all other cells are as before.
pub proof fn lemma_net_count(t: TapeView, ops: Seq<bool>)
    requires
        t.wf(),
    ensures
        t.adjusted(ops).wf(),
        t.adjusted(ops).cursor == t.cursor,
        t.adjusted(ops).current() == wrap_cell(t.current() + net_count(ops)),
        t.adjusted(ops).current() == stepped(
            CellSize::MIN as int,
            cell_modulus(),
            t.current() as int,
            ops,
        ),
        forall|p: int| p != t.cursor ==> t.adjusted(ops).value_at(p) == t.value_at(p),
    decreases ops.len(),
{
    let low = CellSize::MIN as int;
    lemma_wraparound(low, cell_modulus(), t.current() as int, ops);
    if ops.len() > 0 {
        let d: int = if ops[0] {
            1
        } else {
            -1
        };
        let next = if ops[0] {
            t.incremented()
        } else {
            t.decremented()
        };
        lemma_wrap_into(low, cell_modulus(), t.current() + d);
        lemma_with_current(t, wrap_cell(t.current() + d));
        lemma_net_count(next, ops.drop_first());
    }
}

/// A tape: the cells left of the origin, the cells from the origin on, and
/// the cursor.
pub struct Tape {
    left: Vec<CellSize>,
    right: Vec<CellSize>,
    index: usize,
    on_left: bool,
}

impl View for Tape {
    type V = TapeView;

    closed spec fn view(&self) -> TapeView {
        TapeView {
            left: self.left@,
            right: self.right@,
            cursor: if self.on_left {
                -(self.index as int) - 1
            } else {
                self.index as int
            },
        }
    }
}

impl Tape {
    /// A tape with one zero cell, the cursor on it.
    pub fn new() -> (tape: Tape)
        ensures
            tape@ == TapeView::blank(),
            tape@.wf(),
    {
        let mut right: Vec<CellSize> = Vec::new();
        right.push(0);
        let tape = Tape { left: Vec::new(), right, index: 0, on_left: false };
        proof {
            assert(tape@.right =~= seq![0i32]);
            assert(tape@.left =~= Seq::<CellSize>::empty());
        }
        tape
    }

    /// The value of the cell under the cursor.
    pub fn current(&self) -> (v: CellSize)
        requires
            self@.wf(),
        ensures
            v == self@.current(),
    {
        if self.on_left {
            self.left[self.index]
        } else {
            self.right[self.index]
        }
    }

    /// Overwrites the cell under the cursor with `value`, keeping its low
    /// bits where it does not fit a cell.
    pub fn set(&mut self, value: i64)
        requires
            old(self)@.wf(),
        ensures
            final(self)@ == old(self)@.with_current(wrap_cell(value as int)),
            final(self)@.wf(),
            CellSize::MIN <= value <= CellSize::MAX ==> final(self)@.current() == value,
    {
        let v = truncate_to_cell(value);
        proof {
            lemma_wrap_cell(value as int);
        }
        if self.on_left {
            self.left.set(self.index, v);
        } else {
            self.right.set(self.index, v);
        }
    }

    /// Adds one to the cell under the cursor, wrapping at the largest value.
    pub fn increment(&mut self)
        requires
            old(self)@.wf(),
        ensures
            final(self)@ == old(self)@.incremented(),
            final(self)@.wf(),
            final(self)@.current() == if old(self)@.current() == CellSize::MAX {
                CellSize::MIN
            } else {
                (old(self)@.current() + 1) as CellSize
            },
    {
        let v = self.current();
        proof {
            lemma_wrap_step(v);
        }
        let w = v.wrapping_add(1);
        if self.on_left {
            self.left.set(self.index, w);
        } else {
            self.right.set(self.index, w);
        }
    }

    /// Subtracts one from the cell under the cursor, wrapping at the
    /// smallest value.
    pub fn decrement(&mut self)
        requires
            old(self)@.wf(),
        ensures
            final(self)@ == old(self)@.decremented(),
            final(self)@.wf(),
            final(self)@.current() == if old(self)@.current() == CellSize::MIN {
                CellSize::MAX
            } else {
                (old(self)@.current() - 1) as CellSize
            },
    {
        let v = self.current();
        proof {
            lemma_wrap_step(v);
        }
        let w = v.wrapping_sub(1);
        if self.on_left {
            self.left.set(self.index, w);
        } else {
            self.right.set(self.index, w);
        }
    }

    /// Moves the cursor one cell to the right, creating a zero cell where
    /// none exists there yet.
    pub fn move_right(&mut self)
        requires
            old(self)@.wf(),
        ensures
            final(self)@ == old(self)@.moved_right(),
            final(self)@.wf(),
    {
        if self.on_left {
            if self.index == 0 {
                self.on_left = false;
            } else {
                self.index = self.index - 1;
            }
        } else {
            if self.index == self.right.len() - 1 {
                self.right.push(0);
            }
            self.index = self.index + 1;
        }
    }

    /// Moves the cursor one cell to the left, creating a zero cell where
    /// none exists there yet.
    pub fn move_left(&mut self)
        requires
            old(self)@.wf(),
        ensures
            final(self)@ == old(self)@.moved_left(),
            final(self)@.wf(),
    {
        if self.on_left {
            if self.index == self.left.len() - 1 {
                self.left.push(0);
            }
            self.index = self.index + 1;
        } else {
            if self.index == 0 {
                if self.left.len() == 0 {
                    self.left.push(0);
                }
                self.on_left = true;
            } else {
                self.index = self.index - 1;
            }
        }
    }
}

/// One wrapping step up or down is the wrapped sum.
proof fn lemma_wrap_step(v: CellSize)
    ensures
        vstd::wrapping::i32_specs::wrapping_add(v, 1) == wrap_cell(v + 1),
        vstd::wrapping::i32_specs::wrapping_sub(v, 1) == wrap_cell(v - 1),
{
    let m = cell_modulus();
    let low = CellSize::MIN as int;
    lemma_wrap_into(low, m, v + 1);
    lemma_wrap_into(low, m, v - 1);
    if v == CellSize::MAX {
        // v + 1 is one range above `low`
        lemma_mod_multiples_vanish(1, 0, m);
        lemma_small_mod(0, m as nat);
    }
    if v == CellSize::MIN {
        // v - 1 is one range above the largest value
        lemma_mod_multiples_vanish(-1, m - 1, m);
        lemma_small_mod((m - 1) as nat, m as nat);
    }
}

/// The byte made of the low eight bits of `v`.
pub fn cell_to_byte(v: CellSize) -> (b: u8)
    ensures
        b == low_byte(v),
{
    // the remainder has the sign of `v`
    let r: CellSize = v % 256;
    let folded: CellSize = if r < 0 {
        r + 256
    } else {
        r
    };
    proof {
        if v < 0 {
            lemma_fundamental_div_mod(-(v as int), 256);
            let q = (-(v as int)) / 256;
            assert(v as int == 256 * (-q - 1) + folded || v as int == 256 * (-q) + folded);
            lemma_mod_multiples_vanish(-q - 1, folded as int, 256);
            lemma_mod_multiples_vanish(-q, folded as int, 256);
            lemma_small_mod(folded as nat, 256);
        }
    }
    folded as u8
}

/// The cell value that has the low bits of `value`.
fn truncate_to_cell(value: i64) -> (v: CellSize)
    ensures
        v == wrap_cell(value as int),
{
    let half: i64 = CellSize::MAX as i64 + 1;
    let m: i64 = 2 * half;
    // the remainder has the sign of `value`
    let r: i64 = value % m;
    let folded: i64 = if r >= half {
        r - m
    } else if r < -half {
        r + m
    } else {
        r
    };
    proof {
        // value == m * k + r, with the quotient rounded towards zero
        let k: int = if value >= 0 {
            lemma_fundamental_div_mod(value as int, m as int);
            value as int / m as int
        } else {
            lemma_fundamental_div_mod(-(value as int), m as int);
            -((-(value as int)) / m as int)
        };
        assert(value == m * k + r) by (nonlinear_arith)
            requires
                value >= 0 ==> value == m * (value as int / m as int) + r && k == value as int
                    / m as int,
                value < 0 ==> -(value as int) == m * ((-(value as int)) / m as int) - r && k == -((
                -(value as int)) / m as int),
        ;
        // folding moves `r` by one range at most
        let j: int = if r >= half {
            k + 1
        } else if r < -half {
            k - 1
        } else {
            k
        };
        assert(value - CellSize::MIN == m * j + (folded - CellSize::MIN)) by (nonlinear_arith)
            requires
                value == m * k + r,
                folded == r + m * (k - j),
        ;
        lemma_mod_multiples_vanish(j, folded - CellSize::MIN, m as int);
        lemma_wrap_cell(folded as int);
    }
    folded as CellSize
}

} // verus!
