use input_command::build_command;

#[test]
fn types_push_parse() {
    build_command("pABC1234[100]").unwrap();
}

#[test]
fn types_hold_parse() {
    build_command("hABC1234(10)").unwrap();
}

#[test]
fn types_release_parse() {
    build_command("rABC1234[100]").unwrap();
}

#[test]
fn types_command_parse() {
    let commands = build_command("h4 >       r6 > pC").unwrap();
    assert_eq!(commands.keys().len(), 3);
}

#[test]
fn types_command_parse_space() {
    build_command(
        r#"h 4 (60)[ 8 ]
            > r 6 [10 ]
        > p C6 [ 20]"#,
    )
    .unwrap();
}

#[test]
fn types_command_parse_fail() {
    build_command(r#"h4(60)[8]>r6[10]>pC 6[20]"#).unwrap_err();
}
