use brainfuck_redox_scheme::brainfuck::{
    after_send, BrainfuckInterpreter, Step, TerminationReason,
};
use std::sync::mpsc::{channel, Receiver, Sender};

fn machine(text: &str) -> BrainfuckInterpreter {
    BrainfuckInterpreter::new(text.chars().collect())
}

/// Runs `text` on `input`, with the input closed behind it, and gives the
/// reason for the stop and all that was written.
fn run_closed(text: &str, input: &[u8]) -> (Option<TerminationReason>, Vec<u8>) {
    let (input_sender, input_receiver): (Sender<u8>, Receiver<u8>) = channel();
    let (output_sender, output_receiver): (Sender<u8>, Receiver<u8>) = channel();
    for &b in input {
        input_sender.send(b).unwrap();
    }
    drop(input_sender);
    let reason = machine(text).run_brain_fuck(input_receiver, output_sender);
    (reason, output_receiver.into_iter().collect())
}

#[test]
fn empty_program_completes() {
    assert_eq!(run_closed("", b""), (Some(TerminationReason::Completed), vec![]));
}

#[test]
fn other_symbols_are_skipped() {
    assert_eq!(
        run_closed("a b\nc +x+ y. z", b""),
        (Some(TerminationReason::Completed), vec![2])
    );
}

#[test]
fn step_reports_each_instruction() {
    let mut m = machine("+.,x");
    assert_eq!(m.step(), Step::Continue);
    assert_eq!(m.step(), Step::Output(1));
    assert_eq!(m.step(), Step::Input);
    // a `,` is not passed before a byte is supplied
    assert_eq!(m.step(), Step::Input);
    m.supply_input(9);
    assert_eq!(m.step(), Step::Continue);
    assert_eq!(m.step(), Step::Halt(TerminationReason::Completed));
    assert_eq!(m.step(), Step::Halt(TerminationReason::Completed));
}

#[test]
fn refused_send_stops_the_machine() {
    assert_eq!(after_send(true), None);
    assert_eq!(after_send(false), Some(TerminationReason::OutputClosed));
}

#[test]
fn answer_to_a_receive_is_carried_out() {
    let mut m = machine(",.,.");
    assert_eq!(m.step(), Step::Input);
    assert_eq!(m.after_receive(Some(65)), None);
    assert_eq!(m.step(), Step::Output(65));
    assert_eq!(m.step(), Step::Input);
    assert_eq!(m.after_receive(None), Some(TerminationReason::InputClosed));
    // the machine still stands on the `,`
    assert_eq!(m.step(), Step::Input);
    assert_eq!(m.after_receive(Some(0)), None);
    assert_eq!(m.step(), Step::Output(0));
}

#[test]
fn supplied_byte_is_stored() {
    let mut m = machine(",.");
    assert_eq!(m.step(), Step::Input);
    m.supply_input(200);
    assert_eq!(m.step(), Step::Output(200));
}

#[test]
fn output_is_the_low_byte_of_the_cell() {
    // 256 + 3 steps up
    let text = format!("{}.", "+".repeat(259));
    assert_eq!(run_closed(&text, b""), (Some(TerminationReason::Completed), vec![3]));
    assert_eq!(run_closed("-.", b""), (Some(TerminationReason::Completed), vec![255]));
    assert_eq!(run_closed("--.", b""), (Some(TerminationReason::Completed), vec![254]));
}

#[test]
fn loop_is_skipped_on_a_zero_cell() {
    assert_eq!(run_closed("[+.]+.", b""), (Some(TerminationReason::Completed), vec![1]));
    assert_eq!(run_closed("[[+.]+.]+.", b""), (Some(TerminationReason::Completed), vec![1]));
    assert_eq!(run_closed("[a[b]c[d]e]++.", b""), (Some(TerminationReason::Completed), vec![2]));
}

#[test]
fn loop_runs_until_the_cell_is_zero() {
    assert_eq!(
        run_closed("+++[.-]", b""),
        (Some(TerminationReason::Completed), vec![3, 2, 1])
    );
    // 3 * 4 through a nested pair of loops
    assert_eq!(
        run_closed("+++[>++[>++<-]<-]>>.", b""),
        (Some(TerminationReason::Completed), vec![12])
    );
}

#[test]
fn moves_left_of_the_origin_find_zero_cells() {
    assert_eq!(
        run_closed("+<.<.>>.<++.>.", b""),
        (Some(TerminationReason::Completed), vec![0, 0, 1, 2, 1])
    );
}

#[test]
fn three_cells_keep_their_values() {
    assert_eq!(
        run_closed("+<++>>+++<.<.>>.", b""),
        (Some(TerminationReason::Completed), vec![1, 2, 3])
    );
}

#[test]
fn outer_bracket_skips_to_its_own_partner() {
    assert_eq!(run_closed("[[]+.-]+.", b""), (Some(TerminationReason::Completed), vec![1]));
}

#[test]
fn outer_loop_runs_twice_across_the_inner_one() {
    assert_eq!(
        run_closed("++[>++[>++<-]<-]>>.", b""),
        (Some(TerminationReason::Completed), vec![8])
    );
}

#[test]
fn received_bytes_overwrite_the_cell() {
    assert_eq!(
        run_closed("+++,>,>,.<.<.", &[65, 0, 255]),
        (Some(TerminationReason::Completed), vec![255, 0, 65])
    );
}

#[test]
fn counting_wraps_into_one_byte() {
    let up = format!("{}{}.", "+".repeat(300), "-".repeat(40));
    assert_eq!(run_closed(&up, b""), (Some(TerminationReason::Completed), vec![4]));
    let down = format!("{}{}.", "-".repeat(300), "+".repeat(40));
    assert_eq!(run_closed(&down, b""), (Some(TerminationReason::Completed), vec![252]));
}

#[test]
fn moves_away_and_back_find_the_cell() {
    for n in [0usize, 1, 7, 500] {
        let right = format!("+++<++>{}{}.", ">".repeat(n), "<".repeat(n));
        assert_eq!(run_closed(&right, b""), (Some(TerminationReason::Completed), vec![3]));
        let left = format!("+++<++>{}{}.", "<".repeat(n), ">".repeat(n));
        assert_eq!(run_closed(&left, b""), (Some(TerminationReason::Completed), vec![3]));
    }
}

#[test]
fn echo_ends_at_the_first_zero_byte() {
    assert_eq!(
        run_closed(",[.,]", &[9, 8, 0, 7, 0]),
        (Some(TerminationReason::Completed), vec![9, 8])
    );
    assert_eq!(run_closed(",[.,]", &[0]), (Some(TerminationReason::Completed), vec![]));
    assert_eq!(run_closed(",[.,]", &[]), (Some(TerminationReason::InputClosed), vec![]));
}

#[test]
fn input_is_echoed_in_order() {
    assert_eq!(
        run_closed(",[.,]", b"Abracedabra!"),
        (Some(TerminationReason::InputClosed), b"Abracedabra!".to_vec())
    );
}

#[test]
fn a_zero_byte_ends_the_echo() {
    assert_eq!(
        run_closed(",[.,]", &[5, 0, 6]),
        (Some(TerminationReason::Completed), vec![5])
    );
}

#[test]
fn closed_input_stops_a_pending_read() {
    assert_eq!(run_closed("+.,.", b""), (Some(TerminationReason::InputClosed), vec![1]));
}

#[test]
fn closed_output_stops_the_machine() {
    let (_input_sender, input_receiver): (Sender<u8>, Receiver<u8>) = channel();
    let (output_sender, output_receiver): (Sender<u8>, Receiver<u8>) = channel();
    drop(output_receiver);
    assert_eq!(
        machine("++.+[]").run_brain_fuck(input_receiver, output_sender),
        Some(TerminationReason::OutputClosed)
    );
}

#[test]
fn unmatched_open_bracket_is_malformed() {
    assert_eq!(run_closed("[", b""), (Some(TerminationReason::MalformedProgram), vec![]));
    assert_eq!(run_closed("+.>[[-]", b""), (Some(TerminationReason::MalformedProgram), vec![1]));
    assert_eq!(run_closed("[[]", b""), (Some(TerminationReason::MalformedProgram), vec![]));
}

#[test]
fn unmatched_close_bracket_is_malformed() {
    assert_eq!(run_closed("+]", b""), (Some(TerminationReason::MalformedProgram), vec![]));
    assert_eq!(run_closed("[]+.]", b""), (Some(TerminationReason::MalformedProgram), vec![1]));
}

#[test]
fn bracket_that_is_not_jumped_from_is_passed() {
    // the cell is not zero at `[` and zero at `]`: neither looks for its partner
    assert_eq!(run_closed("+[.", b""), (Some(TerminationReason::Completed), vec![1]));
    assert_eq!(run_closed("].", b""), (Some(TerminationReason::Completed), vec![0]));
}

#[test]
fn step_limit_ends_an_endless_loop() {
    let (_input_sender, input_receiver): (Sender<u8>, Receiver<u8>) = channel();
    let (output_sender, _output_receiver): (Sender<u8>, Receiver<u8>) = channel();
    let mut m = machine("+[]");
    assert_eq!(m.run_steps(1000, &input_receiver, &output_sender), None);
    assert_eq!(m.run_steps(0, &input_receiver, &output_sender), None);
    assert_eq!(m.step(), Step::Continue);
}

#[test]
fn run_can_be_taken_up_again() {
    let (_input_sender, input_receiver): (Sender<u8>, Receiver<u8>) = channel();
    let (output_sender, output_receiver): (Sender<u8>, Receiver<u8>) = channel();
    let mut m = machine("+.+.+.");
    assert_eq!(m.run_steps(3, &input_receiver, &output_sender), None);
    assert_eq!(output_receiver.try_iter().collect::<Vec<u8>>(), vec![1]);
    assert_eq!(m.run_steps(3, &input_receiver, &output_sender), None);
    assert_eq!(
        m.run_steps(3, &input_receiver, &output_sender),
        Some(TerminationReason::Completed)
    );
    assert_eq!(output_receiver.try_iter().collect::<Vec<u8>>(), vec![2, 3]);
}
