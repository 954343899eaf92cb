use brainfuck_redox_scheme::brainfuck::{Step, TerminationReason};
use brainfuck_redox_scheme::error::SchemeError;
use brainfuck_redox_scheme::scheme::{BrainfuckScheme, Launch, SchemeEntry};
use brainfuck_redox_scheme::session::BrainfuckEntry;

/// Runs an opened program for as long as it needs nothing that is not
/// there: it stops at a `,` for which no byte is waiting.
fn run_while_fed(launch: &mut Launch) -> Option<TerminationReason> {
    loop {
        match launch.interpreter.step() {
            Step::Continue => {}
            Step::Output(byte) => {
                if launch.output.send(byte).is_err() {
                    return Some(TerminationReason::OutputClosed);
                }
            }
            Step::Input => match launch.input.try_recv() {
                Ok(byte) => launch.interpreter.supply_input(byte),
                Err(std::sync::mpsc::TryRecvError::Empty) => return None,
                Err(std::sync::mpsc::TryRecvError::Disconnected) => {
                    return Some(TerminationReason::InputClosed)
                }
            },
            Step::Halt(reason) => return Some(reason),
        }
    }
}

fn read_all(scheme: &BrainfuckScheme, fd: usize) -> Vec<u8> {
    let mut output = Vec::new();
    let mut buf = [0u8; 5];
    while let Ok(count) = scheme.read(fd, &mut buf) {
        if count == 0 {
            break;
        }
        output.extend_from_slice(&buf[..count]);
    }
    output
}

#[test]
fn handles_are_counted_up() {
    let mut scheme = BrainfuckScheme::new();
    assert_eq!(scheme.scheme_root(), Ok(0));
    let a = scheme.openat(0, "+").unwrap();
    let b = scheme.openat(0, "-").unwrap();
    let c = scheme.openat(0, ".").unwrap();
    assert_eq!((a.id, b.id, c.id), (1, 2, 3));
    // a closed number is not handed out again while the counter is past it
    assert_eq!(scheme.close(2), Ok(()));
    assert_eq!(scheme.openat(0, ",").unwrap().id, 4);
    assert_eq!(scheme.close(1), Ok(()));
    assert_eq!(scheme.close(3), Ok(()));
    assert_eq!(scheme.scheme_root(), Ok(5));
    assert_eq!(scheme.openat(5, "").unwrap().id, 6);
}

#[test]
fn each_call_hands_out_another_number() {
    let mut scheme = BrainfuckScheme::new();
    assert_eq!(scheme.next_id(), 0);
    assert_eq!(scheme.next_id(), 1);
    assert_eq!(scheme.scheme_root(), Ok(2));
    assert_eq!(scheme.next_id(), 3);
    assert_eq!(scheme.openat(2, "+").unwrap().id, 4);
    // the numbers that were handed out and not used are not open
    assert_eq!(scheme.close(0), Err(SchemeError::NoSuchHandle));
    assert_eq!(scheme.close(3), Err(SchemeError::NoSuchHandle));
}

#[test]
fn open_needs_the_root() {
    let mut scheme = BrainfuckScheme::new();
    assert_eq!(scheme.openat(0, "+").err(), Some(SchemeError::NoSuchHandle));
    let root = scheme.scheme_root().unwrap();
    let program = scheme.openat(root, "+").unwrap().id;
    assert_eq!(scheme.openat(program, "+").err(), Some(SchemeError::AccessDenied));
    assert_eq!(scheme.openat(17, "+").err(), Some(SchemeError::NoSuchHandle));
    // a failed open takes no number
    assert_eq!(scheme.next_id(), 2);
}

#[test]
fn open_refuses_brackets_that_do_not_nest() {
    let mut scheme = BrainfuckScheme::new();
    let root = scheme.scheme_root().unwrap();
    assert_eq!(scheme.openat(root, "[").err(), Some(SchemeError::MalformedProgram));
    assert_eq!(scheme.openat(root, "+[.").err(), Some(SchemeError::MalformedProgram));
    assert_eq!(scheme.openat(root, "]").err(), Some(SchemeError::MalformedProgram));
    assert_eq!(scheme.openat(root, "[[]").err(), Some(SchemeError::MalformedProgram));
    assert_eq!(scheme.openat(root, "][").err(), Some(SchemeError::MalformedProgram));
    // a refused program takes no number
    assert_eq!(scheme.openat(root, "[[][]]").unwrap().id, 1);
    // the handle is looked at before the program
    assert_eq!(scheme.openat(1, "[").err(), Some(SchemeError::AccessDenied));
    assert_eq!(scheme.openat(9, "[").err(), Some(SchemeError::NoSuchHandle));
}

#[test]
fn opened_program_is_handed_back_unrun() {
    let mut scheme = BrainfuckScheme::new();
    let root = scheme.scheme_root().unwrap();
    let mut launch = scheme.openat(root, "+++.").unwrap();
    let mut buf = [0u8; 4];
    assert_eq!(scheme.read(launch.id, &mut buf), Err(SchemeError::WouldBlock));
    assert_eq!(launch.interpreter.step(), Step::Continue);
    assert_eq!(run_while_fed(&mut launch), Some(TerminationReason::Completed));
    assert_eq!(scheme.read(launch.id, &mut buf), Ok(1));
    assert_eq!(buf, [3, 0, 0, 0]);
}

#[test]
fn unknown_handles_are_reported() {
    let mut scheme = BrainfuckScheme::new();
    let mut buf = [7u8; 4];
    assert_eq!(scheme.read(0, &mut buf), Err(SchemeError::NoSuchHandle));
    assert_eq!(scheme.write(0, b"x"), Err(SchemeError::NoSuchHandle));
    assert_eq!(scheme.write(0, b""), Err(SchemeError::NoSuchHandle));
    assert_eq!(scheme.close(0), Err(SchemeError::NoSuchHandle));
    let root = scheme.scheme_root().unwrap();
    let fd = scheme.openat(root, ",").unwrap().id;
    assert_eq!(scheme.close(fd), Ok(()));
    assert_eq!(scheme.read(fd, &mut buf), Err(SchemeError::NoSuchHandle));
    assert_eq!(scheme.write(fd, b"x"), Err(SchemeError::NoSuchHandle));
    assert_eq!(scheme.close(fd), Err(SchemeError::NoSuchHandle));
    assert_eq!(buf, [7, 7, 7, 7]);
}

#[test]
fn root_takes_no_reads_or_writes() {
    let mut scheme = BrainfuckScheme::new();
    let root = scheme.scheme_root().unwrap();
    let mut buf = [7u8; 4];
    assert_eq!(scheme.read(root, &mut buf), Err(SchemeError::NoSuchHandle));
    assert_eq!(scheme.write(root, b"x"), Err(SchemeError::NoSuchHandle));
    assert_eq!(buf, [7, 7, 7, 7]);
    assert_eq!(scheme.close(root), Ok(()));
    assert_eq!(scheme.openat(root, "+").err(), Some(SchemeError::NoSuchHandle));
}

#[test]
fn on_close_ignores_unknown_handles() {
    let mut scheme = BrainfuckScheme::new();
    scheme.on_close(3);
    let root = scheme.scheme_root().unwrap();
    let fd = scheme.openat(root, "+").unwrap().id;
    scheme.on_close(fd);
    scheme.on_close(fd);
    assert_eq!(scheme.write(fd, b"x"), Err(SchemeError::NoSuchHandle));
    assert_eq!(scheme.openat(root, "+").unwrap().id, fd + 1);
}

#[test]
fn echo_through_a_handle() {
    let mut scheme = BrainfuckScheme::new();
    let root = scheme.scheme_root().unwrap();
    let mut launch = scheme.openat(root, ",[.,]").unwrap();
    let fd = launch.id;
    let input = b"Abracedabra!";
    assert_eq!(scheme.write(fd, input), Ok(input.len()));
    assert_eq!(run_while_fed(&mut launch), None);
    assert_eq!(read_all(&scheme, fd), input.to_vec());
    let mut buf = [0u8; 4];
    assert_eq!(scheme.read(fd, &mut buf), Err(SchemeError::WouldBlock));
    // more input, more output
    assert_eq!(scheme.write(fd, b"xy"), Ok(2));
    assert_eq!(run_while_fed(&mut launch), None);
    assert_eq!(read_all(&scheme, fd), b"xy".to_vec());
}

#[test]
fn closing_a_handle_releases_a_pending_read() {
    let mut scheme = BrainfuckScheme::new();
    let root = scheme.scheme_root().unwrap();
    let launch = scheme.openat(root, "+,+").unwrap();
    assert_eq!(scheme.close(launch.id), Ok(()));
    // the machine waits on `,`; its input was closed with the handle
    assert_eq!(
        launch.interpreter.run_brain_fuck(launch.input, launch.output),
        Some(TerminationReason::InputClosed)
    );
}

#[test]
fn write_to_a_finished_program_fails() {
    let mut scheme = BrainfuckScheme::new();
    let root = scheme.scheme_root().unwrap();
    let launch = scheme.openat(root, "+.").unwrap();
    let fd = launch.id;
    assert_eq!(
        launch.interpreter.run_brain_fuck(launch.input, launch.output),
        Some(TerminationReason::Completed)
    );
    assert_eq!(scheme.write(fd, b"abc"), Err(SchemeError::NoSuchHandle));
    assert_eq!(scheme.write(fd, b""), Ok(0));
    assert_eq!(read_all(&scheme, fd), vec![1]);
}

#[test]
fn handles_do_not_share_bytes() {
    let mut scheme = BrainfuckScheme::new();
    let root = scheme.scheme_root().unwrap();
    let mut launches: Vec<Launch> = Vec::new();
    for _ in 0..4 {
        launches.push(scheme.openat(root, ",[.,]").unwrap());
    }
    let inputs: [&[u8]; 4] = [b"first", b"second!", b"3", b"the fourth"];
    // one byte at a time, in turn
    for round in 0..10 {
        for (k, launch) in launches.iter_mut().enumerate() {
            if round < inputs[k].len() {
                assert_eq!(scheme.write(launch.id, &inputs[k][round..round + 1]), Ok(1));
            }
            assert_eq!(run_while_fed(launch), None);
        }
    }
    for (k, launch) in launches.iter().enumerate().rev() {
        assert_eq!(read_all(&scheme, launch.id), inputs[k].to_vec());
    }
}

#[test]
fn damaged_table_refuses_everything() {
    let mut scheme = BrainfuckScheme::new();
    let root = scheme.scheme_root().unwrap();
    let fd = scheme.openat(root, ",").unwrap().id;
    scheme.mark_unrecoverable();
    let mut buf = [7u8; 4];
    assert_eq!(scheme.scheme_root(), Err(SchemeError::Unrecoverable));
    assert_eq!(scheme.openat(root, "+").err(), Some(SchemeError::Unrecoverable));
    assert_eq!(scheme.openat(99, "[").err(), Some(SchemeError::Unrecoverable));
    assert_eq!(scheme.read(fd, &mut buf), Err(SchemeError::Unrecoverable));
    assert_eq!(scheme.read(99, &mut buf), Err(SchemeError::Unrecoverable));
    assert_eq!(scheme.write(fd, b"x"), Err(SchemeError::Unrecoverable));
    assert_eq!(scheme.close(fd), Err(SchemeError::Unrecoverable));
    scheme.on_close(fd);
    assert_eq!(scheme.close(fd), Err(SchemeError::Unrecoverable));
    assert_eq!(buf, [7, 7, 7, 7]);
}

#[test]
fn open_is_answered_with_the_handle() {
    let mut scheme = BrainfuckScheme::new();
    let root = scheme.scheme_root().unwrap();
    let first = scheme.openat(root, "+").unwrap();
    let second = scheme.openat(root, "-").unwrap();
    for launch in [first, second] {
        match launch.open_result() {
            redox_scheme::OpenResult::ThisScheme { number, flags } => {
                assert_eq!(number, launch.id);
                assert!(flags.is_empty());
            }
            _ => panic!("the handle is one of this namespace"),
        }
    }
}

#[test]
fn session_is_looked_up_by_handle() {
    let mut scheme = BrainfuckScheme::new();
    assert_eq!(scheme.session(0).err(), Some(SchemeError::NoSuchHandle));
    let root = scheme.scheme_root().unwrap();
    assert_eq!(scheme.session(root).err(), Some(SchemeError::NoSuchHandle));
    let first = scheme.openat(root, ",").unwrap();
    let second = scheme.openat(root, ",").unwrap();
    assert_eq!(scheme.session(first.id).unwrap().push_input(b"one"), Ok(3));
    assert_eq!(scheme.session(second.id).unwrap().push_input(b"2"), Ok(1));
    assert_eq!(first.input.try_iter().collect::<Vec<u8>>(), b"one".to_vec());
    assert_eq!(second.input.try_iter().collect::<Vec<u8>>(), b"2".to_vec());
    scheme.mark_unrecoverable();
    assert_eq!(scheme.session(first.id).err(), Some(SchemeError::Unrecoverable));
}

#[test]
fn other_sessions_outlive_an_open_and_a_close() {
    let mut scheme = BrainfuckScheme::new();
    let root = scheme.scheme_root().unwrap();
    let kept = scheme.openat(root, ",").unwrap();
    assert_eq!(scheme.write(kept.id, b"a"), Ok(1));
    let other = scheme.openat(root, ",").unwrap();
    assert_eq!(scheme.openat(kept.id, "+").err(), Some(SchemeError::AccessDenied));
    assert_eq!(scheme.openat(root, "[").err(), Some(SchemeError::MalformedProgram));
    assert_eq!(scheme.scheme_root(), Ok(3));
    assert_eq!(scheme.close(other.id), Ok(()));
    assert_eq!(scheme.close(other.id), Err(SchemeError::NoSuchHandle));
    scheme.on_close(17);
    // the first session still has the channel it was opened with
    assert_eq!(scheme.write(kept.id, b"b"), Ok(1));
    assert_eq!(kept.input.try_iter().collect::<Vec<u8>>(), b"ab".to_vec());
    kept.output.send(9).unwrap();
    let mut buf = [0u8; 2];
    assert_eq!(scheme.read(kept.id, &mut buf), Ok(1));
    assert_eq!(buf, [9, 0]);
}

#[test]
fn root_entry_has_no_channels() {
    assert_eq!(SchemeEntry::SchemeRoot.as_brainfuck().err(), Some(SchemeError::NoSuchHandle));
    let (input_sender, _input_receiver) = std::sync::mpsc::channel();
    let (_output_sender, output_receiver) = std::sync::mpsc::channel();
    let entry = SchemeEntry::Brainfuck(BrainfuckEntry {
        input_channel: input_sender,
        output_channel: output_receiver,
    });
    assert!(entry.as_brainfuck().is_ok());
    assert_eq!(entry.as_brainfuck().unwrap().push_input(b"ab"), Ok(2));
}

#[test]
fn channels_of_an_entry_can_be_replaced() {
    let mut root = SchemeEntry::SchemeRoot;
    assert_eq!(root.as_brainfuck_mut().err(), Some(SchemeError::NoSuchHandle));
    let (first_sender, _first_receiver) = std::sync::mpsc::channel();
    let (_output_sender, output_receiver) = std::sync::mpsc::channel();
    let mut entry = SchemeEntry::Brainfuck(BrainfuckEntry {
        input_channel: first_sender,
        output_channel: output_receiver,
    });
    let (second_sender, second_receiver) = std::sync::mpsc::channel();
    entry.as_brainfuck_mut().unwrap().input_channel = second_sender;
    assert_eq!(entry.as_brainfuck().unwrap().push_input(b"ab"), Ok(2));
    assert_eq!(second_receiver.try_iter().collect::<Vec<u8>>(), b"ab".to_vec());
}
