use input_command::{parse_command, CommandKey, Error, Key};

#[test]
fn parse_push_parse() {
    parse_command("pABC1234[100]").unwrap();
}

#[test]
fn parse_hold_parse() {
    parse_command("hABC1234(10)").unwrap();
}

#[test]
fn parse_release_parse() {
    parse_command("rABC1234[100]").unwrap();
}

#[test]
fn parse_command_parse() {
    let commands = parse_command("h4 >       r6 > pC").unwrap();
    assert_eq!(commands.keys().len(), 3);
}

#[test]
fn parse_command_parse_space() {
    parse_command(
        r#"h 4 (60)[ 8 ]
            > r 6 [10 ]
        > p C6 [ 20]"#,
    )
    .unwrap();
}

#[test]
fn parse_command_parse_fail() {
    parse_command(r#"h4(60)[8]>r6[10]>pC 6[20]"#).unwrap_err();
}

#[test]
fn grammar_acceptance_counts_steps() {
    let c = parse_command("h4>r6>pC").unwrap();
    assert_eq!(c.keys().len(), 3);
    assert_eq!(
        c.keys()[0],
        CommandKey::Hold { key: Key::from_bits_truncate(Key::BACKWARD), buffer_frame: None, hold_frame: None }
    );
    assert_eq!(
        c.keys()[1],
        CommandKey::Release { key: Key::from_bits_truncate(Key::FORWARD), buffer_frame: None }
    );
    assert_eq!(c.keys()[2], CommandKey::Push { key: Key::from_bits_truncate(Key::C), buffer_frame: None });
}

#[test]
fn parse_fields_and_key_union() {
    let c = parse_command("pABC1234[100]").unwrap();
    let bits = Key::A | Key::B | Key::C | Key::BD | Key::DOWN | Key::FD | Key::BACKWARD;
    assert_eq!(
        c.keys()[0],
        CommandKey::Push { key: Key::from_bits_truncate(bits), buffer_frame: Some(100) }
    );
    let c = parse_command("h 4 (60)[ 8 ]").unwrap();
    assert_eq!(
        c.keys()[0],
        CommandKey::Hold {
            key: Key::from_bits_truncate(Key::BACKWARD),
            buffer_frame: Some(8),
            hold_frame: Some(60)
        }
    );
}

#[test]
fn hold_windows_in_either_order() {
    let a = parse_command("h4(60)[8]").unwrap();
    let b = parse_command("h4[8](60)").unwrap();
    assert_eq!(a.keys()[0], b.keys()[0]);
}

#[test]
fn numpad_diagonals() {
    let c = parse_command("n9 > n7 > n1 > n3").unwrap();
    assert_eq!(c.keys()[0], CommandKey::On { key: Key::from_bits_truncate(Key::FU) });
    assert_eq!(c.keys()[1], CommandKey::On { key: Key::from_bits_truncate(Key::BU) });
    assert_eq!(c.keys()[2], CommandKey::On { key: Key::from_bits_truncate(Key::BD) });
    assert_eq!(c.keys()[3], CommandKey::On { key: Key::from_bits_truncate(Key::FD) });
}

#[test]
fn unknown_key_name() {
    assert_eq!(parse_command("pCX").unwrap_err(), Error::UnknownKeyName);
    assert_eq!(parse_command("p5").unwrap_err(), Error::UnknownKeyName);
    assert_eq!(parse_command("h4 > pE[3]").unwrap_err(), Error::UnknownKeyName);
}

#[test]
fn number_format_error() {
    assert_eq!(
        parse_command("p4[4294967296]").unwrap_err(),
        Error::NumberFormat { digits: "4294967296".to_string() }
    );
    assert_eq!(
        parse_command("p4[x]").unwrap_err(),
        Error::NumberFormat { digits: "x".to_string() }
    );
    assert_eq!(
        parse_command("h4( 1x )").unwrap_err(),
        Error::NumberFormat { digits: "1x".to_string() }
    );
    let c = parse_command("p4[4294967295]").unwrap();
    assert_eq!(
        c.keys()[0],
        CommandKey::Push { key: Key::from_bits_truncate(Key::BACKWARD), buffer_frame: Some(4294967295) }
    );
}

#[test]
fn grammar_mismatch_error() {
    assert_eq!(
        parse_command("x4").unwrap_err(),
        Error::GrammarMismatch { rest: "x4".to_string() }
    );
    assert_eq!(
        parse_command("p4[ ]").unwrap_err(),
        Error::GrammarMismatch { rest: "]".to_string() }
    );
    assert_eq!(parse_command("").unwrap_err(), Error::GrammarMismatch { rest: "".to_string() });
}

#[test]
fn trailing_input_error() {
    assert_eq!(
        parse_command("p6[10] > pC >").unwrap_err(),
        Error::TrailingInput { rest: ">".to_string() }
    );
    assert_eq!(
        parse_command("p4 > ").unwrap_err(),
        Error::TrailingInput { rest: "> ".to_string() }
    );
    assert_eq!(
        parse_command("p4 > x4").unwrap_err(),
        Error::TrailingInput { rest: "> x4".to_string() }
    );
    assert_eq!(
        parse_command("pC 6[20]").unwrap_err(),
        Error::TrailingInput { rest: "6[20]".to_string() }
    );
    assert_eq!(
        parse_command("p4(10)").unwrap_err(),
        Error::TrailingInput { rest: "(10)".to_string() }
    );
}
