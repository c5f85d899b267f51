use input_command::{build_command, Key};

const COMMAND: &'static str = "h4(60)[10] > p6[10] > pC[10]";

fn frames(parts: &[(usize, u16)]) -> Vec<Key> {
    let mut out = Vec::new();
    for &(count, bits) in parts {
        for _ in 0..count {
            out.push(Key::from_bits_truncate(bits));
        }
    }
    out
}

#[test]
fn judge_ok() {
    let command = build_command(COMMAND).unwrap();
    let inputs = frames(&[
        (10, 0),
        (120, Key::BACKWARD),
        (9, 0),
        (10, Key::FORWARD),
        (1, Key::C),
        (9, 0),
    ]);
    assert_eq!(command.judge_inputs(&inputs, 10, 10,), true);
}

#[test]
fn judge_fail_hold() {
    let command = build_command(COMMAND).unwrap();
    let inputs = frames(&[(10, 0), (59, Key::BACKWARD), (1, Key::FORWARD), (10, Key::C)]);
    assert_eq!(command.judge_inputs(&inputs, 10, 10,), false);
}

#[test]
fn judge_hold_of_exactly_sixty() {
    let command = build_command(COMMAND).unwrap();
    let inputs = frames(&[(10, 0), (60, Key::BACKWARD), (1, Key::FORWARD), (10, Key::C)]);
    assert_eq!(command.judge_inputs(&inputs, 10, 10), true);
}

#[test]
fn judge_is_repeatable() {
    let command = build_command(COMMAND).unwrap();
    let inputs = frames(&[(10, 0), (120, Key::BACKWARD), (9, 0), (10, Key::FORWARD), (1, Key::C)]);
    let first = command.judge_inputs(&inputs, 10, 10);
    let second = command.judge_inputs(&inputs, 10, 10);
    assert_eq!(first, second);
    assert!(first);
}

#[test]
fn empty_command_matches_anything() {
    let command = input_command::Command::new(Vec::new());
    assert!(command.judge_inputs(&[], 10, 10));
    assert!(command.judge_inputs(&frames(&[(3, Key::A)]), 0, 0));
}

#[test]
fn off_with_no_frames_left_holds() {
    let command = build_command("fA").unwrap();
    assert!(command.judge_inputs(&[], 10, 10));
    // the push consumes every frame, so the off step sees none
    let command = build_command("fA > pB").unwrap();
    assert!(command.judge_inputs(&frames(&[(1, Key::B)]), 10, 10));
}

#[test]
fn on_needs_a_frame() {
    let command = build_command("nA").unwrap();
    assert!(!command.judge_inputs(&[], 10, 10));
    assert!(command.judge_inputs(&frames(&[(1, Key::A | Key::B)]), 10, 10));
    assert!(!command.judge_inputs(&frames(&[(1, Key::A), (1, Key::B)]), 10, 10));
}

#[test]
fn push_buffer_boundary() {
    let command = build_command("pA[3]").unwrap();
    // found at position 2, no further frames: 2 < 3
    assert!(command.judge_inputs(&frames(&[(1, Key::A), (2, 0)]), 10, 10));
    // found at position 3: 3 < 3 fails
    assert!(!command.judge_inputs(&frames(&[(1, Key::A), (3, 0)]), 10, 10));
    // found at 1 with one more held frame: 1 + 1 < 3
    assert!(command.judge_inputs(&frames(&[(2, Key::A), (1, 0)]), 10, 10));
    // found at 1 with two more held frames: 1 + 2 < 3 fails
    assert!(!command.judge_inputs(&frames(&[(3, Key::A), (1, 0)]), 10, 10));
    // the default buffer applies where the step sets none
    let command = build_command("pA").unwrap();
    assert!(!command.judge_inputs(&frames(&[(1, Key::A), (2, 0)]), 2, 10));
    assert!(command.judge_inputs(&frames(&[(1, Key::A), (1, 0)]), 2, 10));
}

#[test]
fn release_window() {
    let command = build_command("rA[2]").unwrap();
    // still held in the latest frame
    assert!(!command.judge_inputs(&frames(&[(1, Key::A)]), 10, 10));
    // released one frame ago and two frames ago
    assert!(command.judge_inputs(&frames(&[(1, Key::A), (1, 0)]), 10, 10));
    assert!(command.judge_inputs(&frames(&[(1, Key::A), (2, 0)]), 10, 10));
    // released three frames ago: 3 < 2 + 1 fails
    assert!(!command.judge_inputs(&frames(&[(1, Key::A), (3, 0)]), 10, 10));
    // never held
    assert!(!command.judge_inputs(&frames(&[(4, 0)]), 10, 10));
}

#[test]
fn hold_counts_the_found_frame() {
    let command = build_command("h4(3)[0]").unwrap();
    assert!(command.judge_inputs(&frames(&[(3, Key::BACKWARD)]), 10, 10));
    assert!(!command.judge_inputs(&frames(&[(2, Key::BACKWARD)]), 10, 10));
    // a hold of zero frames asks for no run at all
    let command = build_command("h4(0)[0]").unwrap();
    assert!(command.judge_inputs(&frames(&[(1, Key::BACKWARD)]), 10, 10));
    // buffer 0: the key must be held at the latest frame
    let command = build_command("h4(1)").unwrap();
    assert!(!command.judge_inputs(&frames(&[(1, Key::BACKWARD), (1, 0)]), 0, 10));
    assert!(command.judge_inputs(&frames(&[(1, Key::BACKWARD), (1, 0)]), 1, 10));
}

#[test]
fn later_steps_scan_further_back() {
    // the push of 6 must lie before the push of C
    let command = build_command("p6 > pC").unwrap();
    assert!(command.judge_inputs(&frames(&[(1, Key::FORWARD), (1, 0), (1, Key::C)]), 10, 10));
    // the frame that ends the run of C is left for the push of 6
    assert!(command.judge_inputs(&frames(&[(1, Key::FORWARD), (1, Key::C)]), 10, 10));
    assert!(!command.judge_inputs(&frames(&[(1, Key::C), (1, Key::FORWARD)]), 10, 10));
}
