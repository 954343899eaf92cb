use brainfuck_redox_scheme::tape::{cell_to_byte, Tape};

#[test]
fn new_tape_reads_zero() {
    let tape = Tape::new();
    assert_eq!(tape.current(), 0);
}

#[test]
fn increment_wraps_at_the_largest_value() {
    let mut tape = Tape::new();
    tape.set(i32::MAX as i64);
    assert_eq!(tape.current(), i32::MAX);
    tape.increment();
    assert_eq!(tape.current(), i32::MIN);
}

#[test]
fn decrement_wraps_at_the_smallest_value() {
    let mut tape = Tape::new();
    tape.set(i32::MIN as i64);
    tape.decrement();
    assert_eq!(tape.current(), i32::MAX);
}

#[test]
fn steps_add_up_to_the_net_count() {
    let mut tape = Tape::new();
    for _ in 0..1000 {
        tape.increment();
    }
    for _ in 0..1500 {
        tape.decrement();
    }
    for _ in 0..7 {
        tape.increment();
    }
    assert_eq!(tape.current(), -493);
}

#[test]
fn set_keeps_the_low_bits() {
    let mut tape = Tape::new();
    tape.set(65);
    assert_eq!(tape.current(), 65);
    tape.set((1i64 << 32) + 5);
    assert_eq!(tape.current(), 5);
    tape.set(-1);
    assert_eq!(tape.current(), -1);
    tape.set(0x8000_0000);
    assert_eq!(tape.current(), i32::MIN);
    tape.set(0x1_7fff_ffff);
    assert_eq!(tape.current(), i32::MAX);
    tape.set(-0x8000_0001);
    assert_eq!(tape.current(), i32::MAX);
    tape.set(i64::MIN);
    assert_eq!(tape.current(), 0);
    tape.set(i64::MAX);
    assert_eq!(tape.current(), -1);
    tape.set(0x1234_5678_9abc_def0);
    assert_eq!(tape.current(), 0x9abc_def0u32 as i32);
}

#[test]
fn set_changes_one_cell_only() {
    let mut tape = Tape::new();
    tape.set(1);
    tape.move_right();
    tape.set(2);
    tape.move_left();
    tape.move_left();
    tape.set(3);
    assert_eq!(tape.current(), 3);
    tape.move_right();
    assert_eq!(tape.current(), 1);
    tape.move_right();
    assert_eq!(tape.current(), 2);
}

#[test]
fn cell_to_byte_takes_the_low_eight_bits() {
    assert_eq!(cell_to_byte(0), 0);
    assert_eq!(cell_to_byte(72), 72);
    assert_eq!(cell_to_byte(255), 255);
    assert_eq!(cell_to_byte(256), 0);
    assert_eq!(cell_to_byte(0x1234), 0x34);
    assert_eq!(cell_to_byte(-1), 255);
    assert_eq!(cell_to_byte(-256), 0);
    assert_eq!(cell_to_byte(-257), 255);
    assert_eq!(cell_to_byte(i32::MIN), 0);
    assert_eq!(cell_to_byte(i32::MAX), 255);
}

#[test]
fn round_trip_to_the_right_keeps_the_cell() {
    let mut tape = Tape::new();
    tape.set(41);
    for i in 0..50 {
        tape.move_right();
        tape.set(i);
    }
    for _ in 0..50 {
        tape.move_left();
    }
    assert_eq!(tape.current(), 41);
}

#[test]
fn round_trip_to_the_left_keeps_the_cell() {
    let mut tape = Tape::new();
    tape.set(-9);
    for i in 0..50 {
        tape.move_left();
        tape.set(100 + i);
    }
    for _ in 0..50 {
        tape.move_right();
    }
    assert_eq!(tape.current(), -9);
}

#[test]
fn cells_keep_their_places() {
    let mut tape = Tape::new();
    // positions -3 ..= 3 get the values 7 ..= 13
    for _ in 0..3 {
        tape.move_left();
    }
    for value in 7..14 {
        tape.set(value);
        tape.move_right();
    }
    // the cursor stands on 4, a cell that was never written
    assert_eq!(tape.current(), 0);
    for value in (7..14).rev() {
        tape.move_left();
        assert_eq!(tape.current() as i64, value);
    }
    tape.move_left();
    assert_eq!(tape.current(), 0);
}
