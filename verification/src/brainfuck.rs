//! The machine: a program, a program counter and a tape, run one
//! instruction at a time.
//!
//! What one instruction does is the spec function [`MachineView::next`];
//! [`BrainfuckInterpreter::step`] computes it. Input and output are not part
//! of a step: a step on `.` hands out the byte to send, a step on `,` asks
//! for a byte, and [`BrainfuckInterpreter::run_steps`] makes the channel
//! calls in between; [`after_send`] and
//! [`BrainfuckInterpreter::after_receive`] say what each answer of a channel
//! leads to.
//!
//! The model of a machine keeps two logs: the bytes taken in and the bytes
//! handed out. A step on `.` appends to the second, a byte supplied at a `,`
//! to the first. [`MachineView::run_on`] says what a machine writes on a
//! given input; what a run through the channels handed out is what
//! `run_on` writes on what that run took in.

use crate::channel::{recv_byte, send_byte};
use crate::program::{
    find_matching_close, find_matching_open, lemma_scan_backward_lands, lemma_scan_forward_lands,
    lemma_well_nested_has_partners, matching_close, matching_open, well_nested,
};
pub use crate::tape::CellSize;
use crate::tape::{cell_to_byte, low_byte, wrap_cell, Tape, TapeView};
use std::sync::mpsc::{Receiver, Sender};
use vstd::prelude::*;

verus! {

/// Why a machine stopped.
#[derive(Clone, Copy, Debug, PartialEq, Eq, Structural)]
pub enum TerminationReason {
    /// The program counter went past the last instruction.
    Completed,
    /// A `,` found the input closed for good.
    InputClosed,
    /// A `.` found the output closed for good.
    OutputClosed,
    /// A bracket that had to be jumped from has no partner.
    MalformedProgram,
}

/// What one step of the machine led to.
#[derive(Clone, Copy, Debug, PartialEq, Eq, Structural)]
pub enum Step {
    /// An instruction was carried out; the machine can go on.
    Continue,
    /// A `.` was carried out: this byte is to be sent.
    Output(u8),
    /// The machine stands on a `,` and waits for a byte.
    Input,
    /// The machine has stopped and stays as it is.
    Halt(TerminationReason),
}

/// The model of a machine.
pub struct MachineView {
    /// The program text.
    pub code: Seq<char>,
    /// Index of the instruction that is carried out next.
    pub pc: int,
    /// The tape.
    pub tape: TapeView,
    /// The bytes that the machine has taken in at its `,`, in order.
    pub taken: Seq<u8>,
    /// The bytes that the machine has handed out at its `.`, in order. The
    /// last of them is the one that found no taker, where there was none.
    pub given: Seq<u8>,
}

impl MachineView {
    /// The machine before its first step: nothing taken in, nothing handed
    /// out.
    pub open spec fn start(code: Seq<char>) -> MachineView {
        MachineView {
            code,
            pc: 0,
            tape: TapeView::blank(),
            taken: Seq::empty(),
            given: Seq::empty(),
        }
    }

    /// The program counter is inside the text or just past it, and the tape
    /// is well-formed.
    pub open spec fn wf(self) -> bool {
        &&& 0 <= self.pc <= self.code.len()
        &&& self.tape.wf()
    }

    /// The machine stands on the symbol `c`.
    pub open spec fn stands_on(self, c: char) -> bool {
        0 <= self.pc < self.code.len() && self.code[self.pc] == c
    }

    /// The machine with tape `tape`, one instruction further.
    pub open spec fn advanced(self, tape: TapeView) -> MachineView {
        MachineView { pc: self.pc + 1, tape, ..self }
    }

    /// The machine with its program counter just past index `at`.
    pub open spec fn jumped_past(self, at: int) -> MachineView {
        MachineView { pc: at + 1, ..self }
    }

    /// The machine after it has handed out `byte` at the `.` it stands on.
    pub open spec fn with_output(self, byte: u8) -> MachineView {
        MachineView { given: self.given.push(byte), ..self.advanced(self.tape) }
    }

    /// The bytes taken in since the machine was as `before`.
    pub open spec fn taken_since(self, before: MachineView) -> Seq<u8> {
        self.taken.skip(before.taken.len() as int)
    }

    /// The bytes handed out since the machine was as `before`.
    pub open spec fn given_since(self, before: MachineView) -> Seq<u8> {
        self.given.skip(before.given.len() as int)
    }

    /// One step: the machine after it and what it led to.
    ///
    /// Past the end the machine has completed. On `.` the low byte of the
    /// cell is handed out. On `,` nothing changes until a byte is supplied.
    /// A `[` on a zero cell jumps past its `]`, a `]` on a non-zero cell
    /// jumps past its `[`; where that partner is missing the program is
    /// malformed. Every symbol but the eight instructions is skipped.
    pub open spec fn next(self) -> (MachineView, Step) {
        if !(0 <= self.pc < self.code.len()) {
            (self, Step::Halt(TerminationReason::Completed))
        } else if self.code[self.pc] == '+' {
            (self.advanced(self.tape.incremented()), Step::Continue)
        } else if self.code[self.pc] == '-' {
            (self.advanced(self.tape.decremented()), Step::Continue)
        } else if self.code[self.pc] == '>' {
            (self.advanced(self.tape.moved_right()), Step::Continue)
        } else if self.code[self.pc] == '<' {
            (self.advanced(self.tape.moved_left()), Step::Continue)
        } else if self.code[self.pc] == '.' {
            (
                self.with_output(low_byte(self.tape.current())),
                Step::Output(low_byte(self.tape.current())),
            )
        } else if self.code[self.pc] == ',' {
            (self, Step::Input)
        } else if self.code[self.pc] == '[' && self.tape.current() == 0 {
            match matching_close(self.code, self.pc) {
                Some(close) => (self.jumped_past(close), Step::Continue),
                None => (self, Step::Halt(TerminationReason::MalformedProgram)),
            }
        } else if self.code[self.pc] == ']' && self.tape.current() != 0 {
            match matching_open(self.code, self.pc) {
                Some(open) => (self.jumped_past(open), Step::Continue),
                None => (self, Step::Halt(TerminationReason::MalformedProgram)),
            }
        } else {
            (self.advanced(self.tape), Step::Continue)
        }
    }

    /// What holds of a machine that stopped for `reason`: it is past the
    /// end, or stands on the `,` that found no input, or just past the `.`
    /// that found no taker, or on a bracket that has to be jumped from and
    /// has no partner.
    pub open spec fn stopped_for(self, reason: TerminationReason) -> bool {
        match reason {
            TerminationReason::Completed => self.pc == self.code.len(),
            TerminationReason::InputClosed => self.stands_on(','),
            TerminationReason::OutputClosed => self.pc > 0 && self.code[self.pc - 1] == '.'
                && self.given.len() > 0,
            TerminationReason::MalformedProgram => self.next().1 == Step::Halt(
                TerminationReason::MalformedProgram,
            ),
        }
    }

    /// The machine after the `,` it stands on has received `byte`.
    pub open spec fn with_input(self, byte: u8) -> MachineView {
        MachineView {
            taken: self.taken.push(byte),
            ..self.advanced(self.tape.with_current(wrap_cell(byte as int)))
        }
    }

    /// What the machine writes and why it stops when it is run for at most
    /// `fuel` instructions on the input `input`, with the input closed
    /// behind its last byte and the output open. There is no reason where
    /// it has not stopped by then. A `,` that finds the input closed is not
    /// carried out.
    pub open spec fn run_on(self, input: Seq<u8>, fuel: nat) -> (
        Seq<u8>,
        Option<TerminationReason>,
    )
        decreases fuel,
    {
        if fuel == 0 {
            (Seq::empty(), None)
        } else {
            match self.next().1 {
                Step::Halt(reason) => (Seq::empty(), Some(reason)),
                Step::Continue => self.next().0.run_on(input, (fuel - 1) as nat),
                Step::Output(byte) => {
                    let rest = self.next().0.run_on(input, (fuel - 1) as nat);
                    (seq![byte] + rest.0, rest.1)
                },
                Step::Input => if input.len() == 0 {
                    (Seq::empty(), Some(TerminationReason::InputClosed))
                } else {
                    self.with_input(input[0]).run_on(input.drop_first(), (fuel - 1) as nat)
                },
            }
        }
    }

    /// `after` is what one instruction makes of this machine: a step that
    /// did not halt, or a `,` that received some byte.
    pub open spec fn leads_to(self, after: MachineView) -> bool {
        ||| (self.next().1 is Continue && after == self.next().0)
        ||| (self.next().1 is Output && after == self.next().0)
        ||| (self.stands_on(',') && exists|byte: u8| after == #[trigger] self.with_input(byte))
    }

    /// `after` is what `n` instructions, one after the other, make of this
    /// machine.
    pub open spec fn reaches(self, after: MachineView, n: nat) -> bool
        decreases n,
    {
        if n == 0 {
            after == self
        } else {
            exists|before: MachineView|
                self.reaches(before, (n - 1) as nat) && #[trigger] before.leads_to(after)
        }
    }

    /// `after` is what `n` instructions make of this machine, and its logs
    /// are this machine's with what those instructions took in and handed
    /// out behind them; what they handed out is what a run of `n`
    /// instructions on what they took in writes.
    pub open spec fn runs_to(self, after: MachineView, n: nat) -> bool {
        &&& self.reaches(after, n)
        &&& after.taken == self.taken + after.taken_since(self)
        &&& after.given == self.given + after.given_since(self)
        &&& self.run_on(after.taken_since(self), n) == (
            after.given_since(self),
            None::<TerminationReason>,
        )
    }

    /// `after` is what `n` instructions make of this machine, as
    /// [`MachineView::runs_to`] says, and there it has stopped for `reason`.
    /// Unless the output was closed, that is how a run on what was taken in
    /// ends: one more instruction is enough to tell.
    pub open spec fn stops_at(self, after: MachineView, n: nat, reason: TerminationReason) -> bool {
        &&& self.runs_to(after, n)
        &&& after.stopped_for(reason)
        &&& reason != TerminationReason::OutputClosed ==> self.run_on(
            after.taken_since(self),
            n + 1,
        ) == (after.given_since(self), Some(reason))
    }
}

/// What the answer to a send leads to: the machine goes on where the byte
/// was taken, and stops for a closed output where it was refused.
pub open spec fn send_outcome(accepted: bool) -> Option<TerminationReason> {
    if accepted {
        None
    } else {
        Some(TerminationReason::OutputClosed)
    }
}

/// Decides how the machine goes on after a send that was `accepted` or
/// not.
pub fn after_send(accepted: bool) -> (stop: Option<TerminationReason>)
    ensures
        stop == send_outcome(accepted),
{
    if accepted {
        None
    } else {
        Some(TerminationReason::OutputClosed)
    }
}

/// Whether `c` is one of the eight instructions.
pub open spec fn is_instruction(c: char) -> bool {
    c == '+' || c == '-' || c == '<' || c == '>' || c == '.' || c == ',' || c == '[' || c == ']'
}

/// A symbol that is none of the eight instructions is passed over: the
/// step moves the program counter by one and changes nothing else.
pub proof fn lemma_other_symbols_are_skipped(m: MachineView)
    requires
        0 <= m.pc < m.code.len(),
        !is_instruction(m.code[m.pc]),
    ensures
        m.next() == (MachineView { pc: m.pc + 1, ..m }, Step::Continue),
{
}

/// A step keeps the program text and the machine well-formed.
pub proof fn lemma_next_preserves(m: MachineView)
    requires
        m.wf(),
    ensures
        m.next().0.wf(),
        m.next().0.code == m.code,
        forall|byte: u8| m.stands_on(',') ==> (#[trigger] m.with_input(byte)).wf(),
        forall|byte: u8| (#[trigger] m.with_input(byte)).code == m.code,
{
    if 0 <= m.pc < m.code.len() {
        lemma_scan_forward_lands(m.code, m.pc + 1, 0);
        lemma_scan_backward_lands(m.code, m.pc - 1, 0);
    }
}

/// A program whose brackets nest is never found malformed.
pub proof fn lemma_well_nested_never_malformed(m: MachineView)
    requires
        m.wf(),
        well_nested(m.code),
    ensures
        m.next().1 != Step::Halt(TerminationReason::MalformedProgram),
{
    if 0 <= m.pc < m.code.len() {
        lemma_well_nested_has_partners(m.code, m.pc);
    }
}

/// Whatever is reached from a well-formed machine is well-formed and runs
/// the same program.
pub proof fn lemma_reaches_preserves(m: MachineView, after: MachineView, n: nat)
    requires
        m.wf(),
        m.reaches(after, n),
    ensures
        after.wf(),
        after.code == m.code,
    decreases n,
{
    if n > 0 {
        let before = choose|before: MachineView|
            m.reaches(before, (n - 1) as nat) && #[trigger] before.leads_to(after);
        lemma_reaches_preserves(m, before, (n - 1) as nat);
        lemma_next_preserves(before);
    }
}

/// One instruction and then `n` more are `n + 1` instructions.
pub proof fn lemma_reaches_after_step(
    m: MachineView,
    second: MachineView,
    after: MachineView,
    n: nat,
)
    requires
        m.leads_to(second),
        second.reaches(after, n),
    ensures
        m.reaches(after, n + 1),
    decreases n,
{
    if n == 0 {
        assert(m.reaches(m, 0));
    } else {
        let before = choose|before: MachineView|
            second.reaches(before, (n - 1) as nat) && #[trigger] before.leads_to(after);
        lemma_reaches_after_step(m, second, before, (n - 1) as nat);
    }
    assert(m.reaches(after, n + 1));
}

/// The first of `n` instructions leads to a machine from which the other
/// `n - 1` lead on.
pub proof fn lemma_reaches_first_step(m: MachineView, after: MachineView, n: nat)
    requires
        n > 0,
        m.reaches(after, n),
    ensures
        exists|second: MachineView| #[trigger]
            m.leads_to(second) && second.reaches(after, (n - 1) as nat),
    decreases n,
{
    let before = choose|before: MachineView|
        m.reaches(before, (n - 1) as nat) && #[trigger] before.leads_to(after);
    if n == 1 {
        assert(m.leads_to(after) && after.reaches(after, 0));
    } else {
        lemma_reaches_first_step(m, before, (n - 1) as nat);
        let second = choose|second: MachineView| #[trigger]
            m.leads_to(second) && second.reaches(before, (n - 2) as nat);
        assert(second.reaches(after, (n - 1) as nat));
        assert(m.leads_to(second) && second.reaches(after, (n - 1) as nat));
    }
}

/// What the machine did is what a run on what it took in does: after `n`
/// instructions the logs have grown by what was taken in and handed out,
/// and a run on the bytes taken in writes the bytes handed out. With `fuel`
/// for just those `n` instructions the run gives no reason; with more, and
/// the machine stopped for a `reason` other than a closed output, it ends
/// for that reason.
pub proof fn lemma_reaches_is_run_on(
    m: MachineView,
    after: MachineView,
    n: nat,
    fuel: nat,
    reason: Option<TerminationReason>,
)
    requires
        m.wf(),
        m.reaches(after, n),
        match reason {
            None => fuel == n,
            Some(stop) => fuel > n && stop != TerminationReason::OutputClosed && after.stopped_for(
                stop,
            ),
        },
    ensures
        after.wf(),
        after.taken == m.taken + after.taken_since(m),
        after.given == m.given + after.given_since(m),
        m.run_on(after.taken_since(m), fuel) == (after.given_since(m), reason),
    decreases n,
{
    lemma_next_preserves(m);
    if n == 0 {
        assert(after.taken_since(m) =~= Seq::<u8>::empty());
        assert(after.given_since(m) =~= Seq::<u8>::empty());
        assert(m.taken + Seq::<u8>::empty() =~= m.taken);
        assert(m.given + Seq::<u8>::empty() =~= m.given);
    } else {
        lemma_reaches_first_step(m, after, n);
        let second = choose|second: MachineView| #[trigger]
            m.leads_to(second) && second.reaches(after, (n - 1) as nat);
        lemma_reaches_is_run_on(second, after, (n - 1) as nat, (fuel - 1) as nat, reason);
        let later_taken = after.taken_since(second);
        let later_given = after.given_since(second);
        if m.next().1 is Output {
            let byte = m.next().1->Output_0;
            assert(after.given_since(m) =~= seq![byte] + later_given);
            assert(after.taken_since(m) =~= later_taken);
            assert(after.taken =~= m.taken + after.taken_since(m));
            assert(after.given =~= m.given + after.given_since(m));
        } else if m.next().1 is Continue {
            assert(after.given_since(m) =~= later_given);
            assert(after.taken_since(m) =~= later_taken);
        } else {
            let byte = choose|byte: u8| second == #[trigger] m.with_input(byte);
            assert(after.taken_since(m) =~= seq![byte] + later_taken);
            assert(after.taken_since(m).drop_first() =~= later_taken);
            assert(after.given_since(m) =~= later_given);
            assert(after.taken =~= m.taken + after.taken_since(m));
            assert(after.given =~= m.given + after.given_since(m));
        }
    }
}

/// More fuel only lets a run go on: what it has written stays at the front
/// of what it writes, and a run that has stopped stays as it is.
pub proof fn lemma_run_on_more_fuel(m: MachineView, input: Seq<u8>, fuel: nat, more: nat)
    ensures
        m.run_on(input, fuel).0.len() <= m.run_on(input, fuel + more).0.len(),
        m.run_on(input, fuel + more).0.take(m.run_on(input, fuel).0.len() as int) == m.run_on(
            input,
            fuel,
        ).0,
        m.run_on(input, fuel).1 is Some ==> m.run_on(input, fuel + more) == m.run_on(input, fuel),
    decreases fuel,
{
    let short = m.run_on(input, fuel);
    let long = m.run_on(input, fuel + more);
    if fuel == 0 {
        assert(long.0.take(0) =~= short.0);
    } else {
        match m.next().1 {
            Step::Halt(_) => {
                assert(long.0.take(0) =~= short.0);
            },
            Step::Continue => {
                lemma_run_on_more_fuel(m.next().0, input, (fuel - 1) as nat, more);
            },
            Step::Output(byte) => {
                lemma_run_on_more_fuel(m.next().0, input, (fuel - 1) as nat, more);
                let short_rest = m.next().0.run_on(input, (fuel - 1) as nat);
                let long_rest = m.next().0.run_on(input, (fuel - 1 + more) as nat);
                assert(long.0 == seq![byte] + long_rest.0);
                assert(short.0 == seq![byte] + short_rest.0);
                assert(long.0.take(short.0.len() as int) =~= seq![byte] + long_rest.0.take(
                    short_rest.0.len() as int,
                ));
            },
            Step::Input => {
                if input.len() == 0 {
                    assert(long.0.take(0) =~= short.0);
                } else {
                    lemma_run_on_more_fuel(
                        m.with_input(input[0]),
                        input.drop_first(),
                        (fuel - 1) as nat,
                        more,
                    );
                }
            },
        }
    }
}

/// A run on a given input is a run of the machine: it ends in a state that
/// its instructions lead to, one in which the machine has stopped for the
/// reason that the run gives, or one reached by all `fuel` instructions
/// where it gives none.
pub proof fn lemma_run_on_is_a_run(m: MachineView, input: Seq<u8>, fuel: nat)
    requires
        m.wf(),
    ensures
        exists|after: MachineView, n: nat| #[trigger]
            m.reaches(after, n) && n <= fuel && match m.run_on(input, fuel).1 {
                Some(reason) => after.stopped_for(reason),
                None => n == fuel,
            },
    decreases fuel,
{
    lemma_next_preserves(m);
    if fuel == 0 {
        assert(m.reaches(m, 0));
    } else {
        match m.next().1 {
            Step::Halt(reason) => {
                assert(m.reaches(m, 0));
            },
            Step::Input => {
                if input.len() == 0 {
                    assert(m.reaches(m, 0));
                } else {
                    let second = m.with_input(input[0]);
                    lemma_run_on_is_a_run(second, input.drop_first(), (fuel - 1) as nat);
                    let (after, n) = choose|after: MachineView, n: nat| #[trigger]
                        second.reaches(after, n) && n <= fuel - 1 && match second.run_on(
                            input.drop_first(),
                            (fuel - 1) as nat,
                        ).1 {
                            Some(reason) => after.stopped_for(reason),
                            None => n == fuel - 1,
                        };
                    assert(m.leads_to(second));
                    lemma_reaches_after_step(m, second, after, n);
                }
            },
            _ => {
                let second = m.next().0;
                lemma_run_on_is_a_run(second, input, (fuel - 1) as nat);
                let (after, n) = choose|after: MachineView, n: nat| #[trigger]
                    second.reaches(after, n) && n <= fuel - 1 && match second.run_on(
                        input,
                        (fuel - 1) as nat,
                    ).1 {
                        Some(reason) => after.stopped_for(reason),
                        None => n == fuel - 1,
                    };
                assert(m.leads_to(second));
                lemma_reaches_after_step(m, second, after, n);
            },
        }
    }
}

/// A program in execution.
pub struct BrainfuckInterpreter {
    code: Vec<char>,
    program_pointer: usize,
    tape: Tape,
    taken: Ghost<Seq<u8>>,
    given: Ghost<Seq<u8>>,
}

impl View for BrainfuckInterpreter {
    type V = MachineView;

    closed spec fn view(&self) -> MachineView {
        MachineView {
            code: self.code@,
            pc: self.program_pointer as int,
            tape: self.tape@,
            taken: self.taken@,
            given: self.given@,
        }
    }
}

impl BrainfuckInterpreter {
    /// A machine at the start of `program`, on a blank tape.
    pub fn new(program: Vec<char>) -> (machine: BrainfuckInterpreter)
        ensures
            machine@ == MachineView::start(program@),
            machine@.wf(),
    {
        BrainfuckInterpreter {
            code: program,
            program_pointer: 0,
            tape: Tape::new(),
            taken: Ghost(Seq::empty()),
            given: Ghost(Seq::empty()),
        }
    }

    /// Carries out one instruction, or says why none can be carried out.
    pub fn step(&mut self) -> (step: Step)
        requires
            old(self)@.wf(),
        ensures
            final(self)@ == old(self)@.next().0,
            step == old(self)@.next().1,
            final(self)@.wf(),
            final(self)@.code == old(self)@.code,
    {
        proof {
            lemma_next_preserves(self@);
        }
        if self.program_pointer >= self.code.len() {
            return Step::Halt(TerminationReason::Completed);
        }
        let c = self.code[self.program_pointer];
        if c == '+' {
            self.tape.increment();
        } else if c == '-' {
            self.tape.decrement();
        } else if c == '>' {
            self.tape.move_right();
        } else if c == '<' {
            self.tape.move_left();
        } else if c == '.' {
            let byte = cell_to_byte(self.tape.current());
            self.program_pointer = self.program_pointer + 1;
            self.given = Ghost(self.given@.push(byte));
            return Step::Output(byte);
        } else if c == ',' {
            return Step::Input;
        } else if c == '[' {
            if self.tape.current() == 0 {
                match find_matching_close(&self.code, self.program_pointer) {
                    Some(close) => {
                        proof {
                            lemma_scan_forward_lands(self.code@, self.program_pointer + 1, 0);
                        }
                        self.program_pointer = close;
                    },
                    None => {
                        return Step::Halt(TerminationReason::MalformedProgram);
                    },
                }
            }
        } else if c == ']' {
            if self.tape.current() != 0 {
                match find_matching_open(&self.code, self.program_pointer) {
                    Some(open) => {
                        self.program_pointer = open;
                    },
                    None => {
                        return Step::Halt(TerminationReason::MalformedProgram);
                    },
                }
            }
        }
        self.program_pointer = self.program_pointer + 1;
        Step::Continue
    }

    /// Stores `byte` in the cell under the cursor and moves past the `,`
    /// that asked for it.
    pub fn supply_input(&mut self, byte: u8)
        requires
            old(self)@.wf(),
            old(self)@.stands_on(','),
        ensures
            final(self)@ == old(self)@.with_input(byte),
            final(self)@.wf(),
    {
        self.tape.set(byte as i64);
        if self.program_pointer < self.code.len() {
            self.program_pointer = self.program_pointer + 1;
        }
        self.taken = Ghost(self.taken@.push(byte));
    }

    /// Carries out what the answer to a receive leads to, on the `,` that
    /// asked for a byte: a byte is supplied and the machine goes on; without
    /// one the machine stays as it is and stops for a closed input.
    pub fn after_receive(&mut self, received: Option<u8>) -> (stop: Option<TerminationReason>)
        requires
            old(self)@.wf(),
            old(self)@.stands_on(','),
        ensures
            final(self)@.wf(),
            match received {
                Some(byte) => stop is None && final(self)@ == old(self)@.with_input(byte),
                None => stop == Some(TerminationReason::InputClosed) && final(self)@ == old(
                    self,
                )@,
            },
    {
        match received {
            Some(byte) => {
                self.supply_input(byte);
                None
            },
            None => Some(TerminationReason::InputClosed),
        }
    }

    /// Runs the machine for at most `limit` instructions, receiving from
    /// `input` at each `,` and sending to `output` at each `.`.
    ///
    /// The result is the reason for which the machine stopped, or `None`
    /// where `limit` instructions were carried out and it has not stopped.
    /// A `,` that finds `input` closed is not carried out; a `.` that finds
    /// `output` closed is. The machine's logs grow by the bytes that it
    /// took from `input` and by those that it handed to `output`, and the
    /// latter are what a run on the former writes.
    pub fn run_steps(
        &mut self,
        limit: u64,
        input: &Receiver<u8>,
        output: &Sender<u8>,
    ) -> (outcome: Option<TerminationReason>)
        requires
            old(self)@.wf(),
        ensures
            final(self)@.wf(),
            final(self)@.code == old(self)@.code,
            exists|n: nat| #[trigger]
                old(self)@.runs_to(final(self)@, n) && n <= limit && match outcome {
                    Some(reason) => old(self)@.stops_at(final(self)@, n, reason),
                    None => n == limit,
                },
            well_nested(old(self)@.code) ==> outcome != Some(TerminationReason::MalformedProgram),
    {
        let ghost initial = self@;
        let mut left: u64 = limit;
        while left > 0
            invariant
                initial == old(self)@,
                initial.wf(),
                self@.wf(),
                self@.code == initial.code,
                left <= limit,
                initial.reaches(self@, (limit - left) as nat),
            decreases left,
        {
            let ghost before = self@;
            proof {
                if well_nested(before.code) {
                    lemma_well_nested_never_malformed(before);
                }
            }
            match self.step() {
                Step::Continue => {},
                Step::Output(byte) => {
                    if let Some(reason) = after_send(send_byte(output, byte)) {
                        proof {
                            assert(before.leads_to(self@));
                            let n = (limit - left + 1) as nat;
                            assert(initial.reaches(self@, n));
                            lemma_reaches_is_run_on(initial, self@, n, n, None);
                            assert(initial.stops_at(self@, n, reason));
                        }
                        return Some(reason);
                    }
                },
                Step::Input => {
                    let received = recv_byte(input);
                    if let Some(reason) = self.after_receive(received) {
                        proof {
                            let n = (limit - left) as nat;
                            assert(initial.reaches(self@, n));
                            lemma_reaches_is_run_on(initial, self@, n, n, None);
                            lemma_reaches_is_run_on(initial, self@, n, n + 1, Some(reason));
                            assert(initial.stops_at(self@, n, reason));
                        }
                        return Some(reason);
                    }
                    assert(self@ == before.with_input(received->Some_0));
                },
                Step::Halt(reason) => {
                    proof {
                        let n = (limit - left) as nat;
                        assert(initial.reaches(self@, n));
                        lemma_reaches_is_run_on(initial, self@, n, n, None);
                        lemma_reaches_is_run_on(initial, self@, n, n + 1, Some(reason));
                        assert(initial.stops_at(self@, n, reason));
                    }
                    return Some(reason);
                },
            }
            assert(before.leads_to(self@));
            assert(initial.reaches(self@, (limit - left + 1) as nat));
            left = left - 1;
        }
        proof {
            lemma_reaches_is_run_on(initial, self@, limit as nat, limit as nat, None);
            assert(initial.runs_to(self@, limit as nat));
        }
        None
    }

    /// Runs the machine until it stops, receiving from `input` at each `,`
    /// and sending to `output` at each `.`.
    ///
    /// The result is the reason for which the machine stopped, in the state
    /// that the instructions carried out led to; it is `None` where the
    /// machine carried out as many instructions as a `u64` can count and
    /// has not stopped.
    pub fn run_brain_fuck(
        self,
        input: Receiver<u8>,
        output: Sender<u8>,
    ) -> (outcome: Option<TerminationReason>)
        requires
            self@.wf(),
        ensures
            exists|last: MachineView, n: nat| #[trigger]
                self@.runs_to(last, n) && n <= u64::MAX && match outcome {
                    Some(reason) => self@.stops_at(last, n, reason),
                    None => n == u64::MAX,
                },
            well_nested(self@.code) ==> outcome != Some(TerminationReason::MalformedProgram),
    {
        let mut machine = self;
        let outcome = machine.run_steps(u64::MAX, &input, &output);
        proof {
            let n = choose|n: nat| #[trigger]
                self@.runs_to(machine@, n) && n <= u64::MAX && match outcome {
                    Some(reason) => self@.stops_at(machine@, n, reason),
                    None => n == u64::MAX,
                };
            assert(self@.runs_to(machine@, n));
        }
        outcome
    }
}

} // verus!
