//! Programs to try the machine on, and what the first of them does on any
//! input.

use crate::brainfuck::{
    lemma_reaches_is_run_on, lemma_run_on_more_fuel, MachineView, TerminationReason,
};
use crate::program::{matching_close, matching_open, scan_backward, scan_forward};
use crate::tape::{lemma_with_current, lemma_wrap_cell, low_byte, wrap_cell};
use vstd::prelude::*;

verus! {

/// Copies its input to its output until the input is closed or holds a zero
/// byte.
pub const CAT: &'static str = ",[.,]";

/// Writes the width of the machine's cells: 8, 16 or 32 bits.
pub const CELL_SIZE: &'static str = "
Calculate the value 256 and test if it's zero
If the interpreter errors on overflow this is where it'll happen
++++++++[>++++++++<-]>[<++++>-]
+<[>-<
    Not zero so multiply by 256 again to get 65536
    [>++++<-]>[<++++++++>-]<[>++++++++<-]
    +>[>
        # Print '32'
        ++++++++++[>+++++<-]>+.-.[-]<
    <[-]<->] <[>>
        # Print '16'
        +++++++[>+++++++<-]>.+++++.[-]<
<<-]] >[>
    # Print '8'
    ++++++++[>+++++++<-]>.[-]<
<-]<
# Print  bit cells\n
+++++++++++[>+++>+++++++++>+++++++++>+<<<<-]>-.>-.+++++++.+++++++++++.<.
>>.++.+++++++..<-.>>-
Clean up used cells.
[[-]<]
";

/// Writes a greeting, a line feed and a carriage return.
pub const HELLO_WORLD: &'static str = "
    ++++++++++
 [
  >+++++++>++++++++++>+++>+<<<<-
 ]                       Schleife zur Vorbereitung der Textausgabe
 >++.                    Ausgabe von 'H'
 >+.                     Ausgabe von 'e'
 +++++++.                'l'
 .                       'l'
 +++.                    'o'
 >++.                    Leerzeichen
 <<+++++++++++++++.      'W'
 >.                      'o'
 +++.                    'r'
 ------.                 'l'
 --------.               'd'
 >+.                     '!'
 >.                      Zeilenvorschub
 +++.                    Wagenrücklauf
";

/// The bytes of `input` before its first zero byte.
pub open spec fn echoed(input: Seq<u8>) -> Seq<u8>
    decreases input.len(),
{
    if input.len() == 0 || input[0] == 0 {
        Seq::empty()
    } else {
        seq![input[0]] + echoed(input.drop_first())
    }
}

/// Why the copying stops on `input`: it is complete where it met a zero
/// byte, and finds its input closed where there is none.
pub open spec fn echo_end(input: Seq<u8>) -> TerminationReason
    decreases input.len(),
{
    if input.len() == 0 {
        TerminationReason::InputClosed
    } else if input[0] == 0 {
        TerminationReason::Completed
    } else {
        echo_end(input.drop_first())
    }
}

/// The brackets of `CAT` are each other's partners.
proof fn lemma_cat_partners()
    ensures
        CAT@ == seq![',', '[', '.', ',', ']'],
        matching_close(CAT@, 1) == Some(4int),
        matching_open(CAT@, 4) == Some(1int),
{
    reveal_strlit(",[.,]");
    assert(CAT@ =~= seq![',', '[', '.', ',', ']']);
    reveal_with_fuel(scan_forward, 4);
    reveal_with_fuel(scan_backward, 4);
}

/// `CAT` inside its loop, about to write the byte `byte` that it has read,
/// writes `byte` and then what it echoes of the rest of the input.
proof fn lemma_cat_loop(m: MachineView, byte: u8, rest: Seq<u8>, fuel: nat)
    requires
        m.code == CAT@,
        m.pc == 2,
        m.tape.wf(),
        m.tape.current() == byte,
        byte != 0,
        fuel >= 3 * rest.len() + 3,
    ensures
        m.run_on(rest, fuel) == (seq![byte] + echoed(rest), Some(echo_end(rest))),
    decreases rest.len(),
{
    lemma_cat_partners();
    assert(low_byte(m.tape.current()) == byte);
    // `.` writes the byte; the machine stands on `,`
    let at_comma = m.next().0;
    assert(at_comma.pc == 3 && at_comma.tape == m.tape);
    let after = at_comma.run_on(rest, (fuel - 1) as nat);
    assert(m.run_on(rest, fuel) == (seq![byte] + after.0, after.1));
    if rest.len() == 0 {
        assert(after == (Seq::<u8>::empty(), Some(TerminationReason::InputClosed)));
    } else {
        // `,` reads the next byte; the machine stands on `]`
        let at_close = at_comma.with_input(rest[0]);
        lemma_wrap_cell(rest[0] as int);
        lemma_with_current(at_comma.tape, wrap_cell(rest[0] as int));
        assert(at_close.pc == 4 && at_close.tape.current() == rest[0]);
        assert(after == at_close.run_on(rest.drop_first(), (fuel - 2) as nat));
        if rest[0] == 0 {
            // `]` on a zero cell is passed, and the program is over
            let over = at_close.next().0;
            assert(over.pc == 5);
            assert(over.run_on(rest.drop_first(), (fuel - 3) as nat) == (
                Seq::<u8>::empty(),
                Some(TerminationReason::Completed),
            ));
        } else {
            // `]` on a non-zero cell jumps back into the loop
            let again = at_close.next().0;
            assert(again.pc == 2 && again.tape == at_close.tape);
            lemma_cat_loop(again, rest[0], rest.drop_first(), (fuel - 3) as nat);
        }
    }
}

/// Echo: run on any input, with the input closed behind it, `CAT` writes
/// the bytes of the input up to its first zero byte, in order, each once,
/// and nothing else. It then is complete where it met a zero byte, and has
/// found its input closed where there was none. Three instructions for
/// each byte of the input and three more are enough for this.
pub proof fn lemma_cat_echoes(input: Seq<u8>, fuel: nat)
    requires
        fuel >= 3 * input.len() + 3,
    ensures
        MachineView::start(CAT@).run_on(input, fuel) == (echoed(input), Some(echo_end(input))),
        echoed(input) == input.take(first_zero(input)),
        echo_end(input) == if first_zero(input) == input.len() {
            TerminationReason::InputClosed
        } else {
            TerminationReason::Completed
        },
{
    lemma_cat_partners();
    lemma_echoed_is_prefix(input);
    let m = MachineView::start(CAT@);
    if input.len() > 0 {
        // `,` reads the first byte; the machine stands on `[`
        let at_open = m.with_input(input[0]);
        lemma_wrap_cell(input[0] as int);
        lemma_with_current(m.tape, wrap_cell(input[0] as int));
        assert(at_open.pc == 1 && at_open.tape.current() == input[0]);
        assert(m.run_on(input, fuel) == at_open.run_on(input.drop_first(), (fuel - 1) as nat));
        if input[0] == 0 {
            // `[` on a zero cell jumps past its `]`, and the program is over
            let over = at_open.next().0;
            assert(over.pc == 5);
            assert(over.run_on(input.drop_first(), (fuel - 2) as nat) == (
                Seq::<u8>::empty(),
                Some(TerminationReason::Completed),
            ));
        } else {
            let inside = at_open.next().0;
            assert(inside.pc == 2 && inside.tape == at_open.tape);
            lemma_cat_loop(inside, input[0], input.drop_first(), (fuel - 2) as nat);
        }
    }
}

/// Echo, of a run: wherever `CAT`, run from its start, has stopped, the
/// bytes that it has handed out stand at the front of the bytes that it
/// took in, up to the first zero byte among them: in order, each once, and
/// nothing else. Unless it found its output closed it has handed out all of
/// them, and it is complete where it took in a zero byte and has found its
/// input closed where it took in none.
pub proof fn lemma_cat_run_echoes(last: MachineView, n: nat, reason: TerminationReason)
    requires
        MachineView::start(CAT@).stops_at(last, n, reason),
    ensures
        last.given.len() <= echoed(last.taken).len(),
        last.given == echoed(last.taken).take(last.given.len() as int),
        echoed(last.taken) == last.taken.take(first_zero(last.taken)),
        reason != TerminationReason::OutputClosed ==> last.given == echoed(last.taken) && reason
            == echo_end(last.taken),
{
    let start = MachineView::start(CAT@);
    let fuel = n + 1 + 3 * last.taken.len() + 3;
    assert(last.taken_since(start) =~= last.taken);
    assert(last.given_since(start) =~= last.given);
    lemma_cat_echoes(last.taken, fuel);
    lemma_run_on_more_fuel(start, last.taken, n, (fuel - n) as nat);
    if reason != TerminationReason::OutputClosed {
        lemma_reaches_is_run_on(start, last, n, fuel, Some(reason));
        assert(echoed(last.taken).take(echoed(last.taken).len() as int) =~= echoed(last.taken));
    }
}

/// The index of the first zero byte of `input`, or its length where it
/// has none.
pub open spec fn first_zero(input: Seq<u8>) -> int
    decreases input.len(),
{
    if input.len() == 0 || input[0] == 0 {
        0
    } else {
        1 + first_zero(input.drop_first())
    }
}

/// `first_zero` is an index of `input` or its length; no byte before it is
/// zero, and the byte at it is.
pub proof fn lemma_first_zero(input: Seq<u8>)
    ensures
        0 <= first_zero(input) <= input.len(),
        forall|k: int| 0 <= k < first_zero(input) ==> input[k] != 0,
        first_zero(input) < input.len() ==> input[first_zero(input)] == 0,
    decreases input.len(),
{
    if input.len() > 0 && input[0] != 0 {
        let rest = input.drop_first();
        lemma_first_zero(rest);
        assert forall|k: int| 0 <= k < first_zero(input) implies input[k] != 0 by {
            if k > 0 {
                assert(rest[k - 1] != 0);
            }
        }
    }
}

/// What is echoed is the input up to its first zero byte, and the copying
/// is complete just where there is one.
pub proof fn lemma_echoed_is_prefix(input: Seq<u8>)
    ensures
        echoed(input) == input.take(first_zero(input)),
        echo_end(input) == if first_zero(input) == input.len() {
            TerminationReason::InputClosed
        } else {
            TerminationReason::Completed
        },
    decreases input.len(),
{
    lemma_first_zero(input);
    if input.len() > 0 && input[0] != 0 {
        let rest = input.drop_first();
        lemma_first_zero(rest);
        lemma_echoed_is_prefix(rest);
        assert(seq![input[0]] + rest.take(first_zero(rest)) =~= input.take(first_zero(input)));
    } else {
        assert(input.take(0) =~= Seq::<u8>::empty());
    }
}

} // verus!
