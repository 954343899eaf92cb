//! Laws of whole runs: what programs of some simple shapes write, on any
//! input.
//!
//! Each law is stated twice: of [`MachineView::run_on`], the run on a given
//! input, and of a machine that has stopped after a run from its start, as
//! [`BrainfuckInterpreter::run_steps`](crate::brainfuck::BrainfuckInterpreter::run_steps)
//! leaves it.

use crate::brainfuck::{
    lemma_next_preserves, lemma_reaches_is_run_on, lemma_reaches_preserves,
    lemma_run_on_more_fuel, MachineView, TerminationReason,
};
use crate::tape::{
    lemma_move, lemma_net_count, lemma_round_trip, lemma_with_current, low_byte,
    net_count, wrap_cell, TapeView,
};
use vstd::prelude::*;

verus! {

/// Whether `c` is one of the four instructions that act on the tape alone.
pub open spec fn is_tape_instruction(c: char) -> bool {
    c == '+' || c == '-' || c == '<' || c == '>'
}

/// The tape after the tape instruction `c`.
pub open spec fn applied(tape: TapeView, c: char) -> TapeView {
    if c == '+' {
        tape.incremented()
    } else if c == '-' {
        tape.decremented()
    } else if c == '>' {
        tape.moved_right()
    } else if c == '<' {
        tape.moved_left()
    } else {
        tape
    }
}

/// The tape after the tape instructions `ops`, in order.
pub open spec fn tape_after(tape: TapeView, ops: Seq<char>) -> TapeView
    decreases ops.len(),
{
    if ops.len() == 0 {
        tape
    } else {
        tape_after(applied(tape, ops[0]), ops.drop_first())
    }
}

/// `n` times the symbol `c`.
pub open spec fn repeated(c: char, n: nat) -> Seq<char> {
    Seq::new(n, |i: int| c)
}

/// For each symbol of `steps` whether it is `+`.
pub open spec fn ups(steps: Seq<char>) -> Seq<bool> {
    Seq::new(steps.len(), |i: int| steps[i] == '+')
}

/// A machine with its program counter at `pc` and its tape as `tape`.
pub open spec fn moved_on(m: MachineView, pc: int, tape: TapeView) -> MachineView {
    MachineView { pc, tape, ..m }
}

/// A tape instruction keeps the tape well-formed.
proof fn lemma_applied_wf(tape: TapeView, c: char)
    requires
        tape.wf(),
    ensures
        applied(tape, c).wf(),
{
    lemma_with_current(tape, wrap_cell(tape.current() + 1));
    lemma_with_current(tape, wrap_cell(tape.current() - 1));
    lemma_move(tape);
}

/// Tape instructions one after the other: the second run begins on the
/// tape that the first run left.
pub proof fn lemma_tape_after_concat(tape: TapeView, first: Seq<char>, second: Seq<char>)
    ensures
        tape_after(tape, first + second) == tape_after(tape_after(tape, first), second),
    decreases first.len(),
{
    if first.len() == 0 {
        assert(first + second =~= second);
    } else {
        assert((first + second).drop_first() =~= first.drop_first() + second);
        lemma_tape_after_concat(applied(tape, first[0]), first.drop_first(), second);
    }
}

/// `n` times `>` are `n` moves to the right, and `n` times `<` are `n`
/// moves to the left.
pub proof fn lemma_repeated_moves(tape: TapeView, n: nat)
    ensures
        tape_after(tape, repeated('>', n)) == tape.moved_right_by(n),
        tape_after(tape, repeated('<', n)) == tape.moved_left_by(n),
    decreases n,
{
    if n > 0 {
        assert(repeated('>', n).drop_first() =~= repeated('>', (n - 1) as nat));
        assert(repeated('<', n).drop_first() =~= repeated('<', (n - 1) as nat));
        lemma_repeated_moves(tape.moved_right(), (n - 1) as nat);
        lemma_repeated_moves(tape.moved_left(), (n - 1) as nat);
    }
}

/// A run of `+` and `-` adjusts the cell under the cursor, step by step.
pub proof fn lemma_counting_adjusts(tape: TapeView, steps: Seq<char>)
    requires
        forall|i: int| 0 <= i < steps.len() ==> steps[i] == '+' || steps[i] == '-',
    ensures
        tape_after(tape, steps) == tape.adjusted(ups(steps)),
    decreases steps.len(),
{
    if steps.len() > 0 {
        assert(ups(steps).drop_first() =~= ups(steps.drop_first()));
        lemma_counting_adjusts(applied(tape, steps[0]), steps.drop_first());
    }
}

/// A stretch of `k` tape instructions is carried out one by one, takes
/// nothing in and hands nothing out: the run goes on behind it, on the tape
/// that those instructions leave.
pub proof fn lemma_straight_line(m: MachineView, k: nat, input: Seq<u8>, fuel: nat)
    requires
        m.wf(),
        m.pc + k <= m.code.len(),
        forall|i: int| m.pc <= i < m.pc + k ==> is_tape_instruction(m.code[i]),
        fuel >= k,
    ensures
        moved_on(m, m.pc + k, tape_after(m.tape, m.code.subrange(m.pc, m.pc + k))).wf(),
        m.run_on(input, fuel) == moved_on(
            m,
            m.pc + k,
            tape_after(m.tape, m.code.subrange(m.pc, m.pc + k)),
        ).run_on(input, (fuel - k) as nat),
    decreases k,
{
    let stretch = m.code.subrange(m.pc, m.pc + k);
    if k == 0 {
        assert(moved_on(m, m.pc, m.tape) == m);
    } else {
        let second = m.next().0;
        lemma_applied_wf(m.tape, m.code[m.pc]);
        assert(is_tape_instruction(m.code[m.pc]));
        assert(second == moved_on(m, m.pc + 1, applied(m.tape, stretch[0])));
        assert(stretch.drop_first() =~= second.code.subrange(second.pc, second.pc + k - 1));
        lemma_straight_line(second, (k - 1) as nat, input, (fuel - 1) as nat);
    }
}

/// A machine on the `.` that ends its program hands out the low byte of
/// the cell under the cursor and is complete.
pub proof fn lemma_final_output(m: MachineView, input: Seq<u8>, fuel: nat)
    requires
        m.wf(),
        m.pc == m.code.len() - 1,
        m.code[m.pc] == '.',
        fuel >= 2,
    ensures
        m.run_on(input, fuel) == (
            seq![low_byte(m.tape.current())],
            Some(TerminationReason::Completed),
        ),
{
    let second = m.next().0;
    assert(second.run_on(input, (fuel - 1) as nat) == (
        Seq::<u8>::empty(),
        Some(TerminationReason::Completed),
    ));
    assert(seq![low_byte(m.tape.current())] + Seq::<u8>::empty() =~= seq![
        low_byte(m.tape.current()),
    ]);
}

/// Wraparound, of a run: a program of `+` and `-` with a `.` behind them
/// writes one byte, the low byte of the net count modulo the number of
/// cell values, whatever its input, and is complete.
pub proof fn lemma_counting_program(steps: Seq<char>, input: Seq<u8>, fuel: nat)
    requires
        forall|i: int| 0 <= i < steps.len() ==> steps[i] == '+' || steps[i] == '-',
        fuel >= steps.len() + 2,
    ensures
        MachineView::start(steps.push('.')).run_on(input, fuel) == (
            seq![low_byte(wrap_cell(net_count(ups(steps))))],
            Some(TerminationReason::Completed),
        ),
{
    let code = steps.push('.');
    let start = MachineView::start(code);
    assert(code.subrange(0, steps.len() as int) =~= steps);
    lemma_straight_line(start, steps.len(), input, fuel);
    lemma_counting_adjusts(start.tape, steps);
    lemma_net_count(start.tape, ups(steps));
    let at_dot = moved_on(start, steps.len() as int, tape_after(start.tape, steps));
    lemma_final_output(at_dot, input, (fuel - steps.len()) as nat);
}

/// The program of the round trip: the tape instructions `first`, `n` moves
/// away, to the right or to the left, `n` moves back, and a `.`.
pub open spec fn round_trip_program(first: Seq<char>, n: nat, rightwards: bool) -> Seq<char> {
    if rightwards {
        (first + repeated('>', n) + repeated('<', n)).push('.')
    } else {
        (first + repeated('<', n) + repeated('>', n)).push('.')
    }
}

/// Round trip, of a run: after any tape instructions, `n` moves away in one
/// direction and `n` moves back, a `.` writes the low byte of the cell that
/// was under the cursor before the moves, with the value that it had then.
pub proof fn lemma_round_trip_program(
    first: Seq<char>,
    n: nat,
    rightwards: bool,
    input: Seq<u8>,
    fuel: nat,
)
    requires
        forall|i: int| 0 <= i < first.len() ==> is_tape_instruction(first[i]),
        fuel >= first.len() + 2 * n + 2,
    ensures
        MachineView::start(round_trip_program(first, n, rightwards)).run_on(input, fuel) == (
            seq![low_byte(tape_after(TapeView::blank(), first).current())],
            Some(TerminationReason::Completed),
        ),
{
    let code = round_trip_program(first, n, rightwards);
    let start = MachineView::start(code);
    let away = if rightwards {
        repeated('>', n)
    } else {
        repeated('<', n)
    };
    let back = if rightwards {
        repeated('<', n)
    } else {
        repeated('>', n)
    };
    let stretch = first + away + back;
    assert(code.subrange(0, stretch.len() as int) =~= stretch);
    lemma_straight_line(start, stretch.len(), input, fuel);
    // the tape behind the stretch is the tape behind `first`, moved away and back
    let before = tape_after(start.tape, first);
    lemma_tape_after_concat(start.tape, first + away, back);
    lemma_tape_after_concat(start.tape, first, away);
    lemma_repeated_moves(before, n);
    lemma_repeated_moves(tape_after(before, away), n);
    lemma_tape_wf(start.tape, first);
    lemma_round_trip(before, n);
    let at_dot = moved_on(start, stretch.len() as int, tape_after(start.tape, stretch));
    lemma_final_output(at_dot, input, (fuel - stretch.len()) as nat);
}

/// Tape instructions keep the tape well-formed.
proof fn lemma_tape_wf(tape: TapeView, ops: Seq<char>)
    requires
        tape.wf(),
    ensures
        tape_after(tape, ops).wf(),
    decreases ops.len(),
{
    if ops.len() > 0 {
        lemma_applied_wf(tape, ops[0]);
        lemma_tape_wf(applied(tape, ops[0]), ops.drop_first());
    }
}

/// A program without `,` takes nothing in.
pub proof fn lemma_no_comma_takes_nothing(m: MachineView, after: MachineView, n: nat)
    requires
        m.wf(),
        forall|i: int| 0 <= i < m.code.len() ==> m.code[i] != ',',
        m.reaches(after, n),
    ensures
        after.taken == m.taken,
    decreases n,
{
    if n > 0 {
        let before = choose|before: MachineView|
            m.reaches(before, (n - 1) as nat) && #[trigger] before.leads_to(after);
        lemma_no_comma_takes_nothing(m, before, (n - 1) as nat);
        lemma_reaches_preserves(m, before, (n - 1) as nat);
        lemma_next_preserves(before);
    }
}

/// Where a machine has stopped after a run from its start, and every run
/// of its program on what it took in writes the one byte `byte` and is
/// complete, it has handed out that byte and nothing else, and is complete
/// or has found its output closed at that byte.
proof fn lemma_one_byte_run(
    start: MachineView,
    last: MachineView,
    n: nat,
    reason: TerminationReason,
    byte: u8,
    fuel: nat,
)
    requires
        start.wf(),
        start.given == Seq::<u8>::empty(),
        start.stops_at(last, n, reason),
        fuel > n,
        start.run_on(last.taken_since(start), fuel) == (
            seq![byte],
            Some(TerminationReason::Completed),
        ),
    ensures
        reason == TerminationReason::Completed || reason == TerminationReason::OutputClosed,
        last.given == seq![byte],
{
    assert(last.given_since(start) =~= last.given);
    if reason != TerminationReason::OutputClosed {
        lemma_reaches_is_run_on(start, last, n, fuel, Some(reason));
    } else {
        // the byte that found no taker is at the front of what the run writes
        lemma_run_on_more_fuel(start, last.taken_since(start), n, (fuel - n) as nat);
        assert(last.given =~= seq![byte]);
    }
}

/// Wraparound, of a machine that was run: where a program of `+` and `-`
/// with a `.` behind them has stopped, it has taken nothing in and has
/// handed out one byte, the low byte of the net count modulo the number of
/// cell values. It is complete, or has found its output closed at that
/// byte.
pub proof fn lemma_counting_run(
    steps: Seq<char>,
    last: MachineView,
    n: nat,
    reason: TerminationReason,
)
    requires
        forall|i: int| 0 <= i < steps.len() ==> steps[i] == '+' || steps[i] == '-',
        MachineView::start(steps.push('.')).stops_at(last, n, reason),
    ensures
        reason == TerminationReason::Completed || reason == TerminationReason::OutputClosed,
        last.taken == Seq::<u8>::empty(),
        last.given == seq![low_byte(wrap_cell(net_count(ups(steps))))],
{
    let start = MachineView::start(steps.push('.'));
    let fuel = n + steps.len() + 2;
    lemma_counting_program(steps, last.taken_since(start), fuel);
    lemma_one_byte_run(
        start,
        last,
        n,
        reason,
        low_byte(wrap_cell(net_count(ups(steps)))),
        fuel,
    );
    lemma_no_comma_takes_nothing(start, last, n);
}

/// Round trip, of a machine that was run: where the program of the round
/// trip has stopped, it has taken nothing in and has handed out one byte,
/// the low byte of the cell that was under the cursor before the moves,
/// with the value that it had then. It is complete, or has found its output
/// closed at that byte.
pub proof fn lemma_round_trip_run(
    first: Seq<char>,
    moves: nat,
    rightwards: bool,
    last: MachineView,
    n: nat,
    reason: TerminationReason,
)
    requires
        forall|i: int| 0 <= i < first.len() ==> is_tape_instruction(first[i]),
        MachineView::start(round_trip_program(first, moves, rightwards)).stops_at(last, n, reason),
    ensures
        reason == TerminationReason::Completed || reason == TerminationReason::OutputClosed,
        last.taken == Seq::<u8>::empty(),
        last.given == seq![low_byte(tape_after(TapeView::blank(), first).current())],
{
    let start = MachineView::start(round_trip_program(first, moves, rightwards));
    let fuel = n + first.len() + 2 * moves + 2;
    lemma_round_trip_program(first, moves, rightwards, last.taken_since(start), fuel);
    lemma_one_byte_run(
        start,
        last,
        n,
        reason,
        low_byte(tape_after(TapeView::blank(), first).current()),
        fuel,
    );
    lemma_no_comma_takes_nothing(start, last, n);
}

} // verus!
