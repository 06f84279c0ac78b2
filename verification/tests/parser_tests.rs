use sunday::sunday::{machine_from_str, parse_sunday_line, Command, Machine};

#[test]
fn test_parse_user() {
    let thingy = "USER rossdylan\n".as_bytes();
    let result: Command = parse_sunday_line(thingy).unwrap();
    assert_eq!(result, Command::USER { username: String::from("rossdylan") });
}

#[test]
fn test_parse_pass() {
    let thingy = "PASS herpderp\n".as_bytes();
    let result: Command = parse_sunday_line(thingy).unwrap();
    assert_eq!(result, Command::PASS { password: String::from("herpderp") });
}

#[test]
fn test_parse_valid_machine() {
    let thingy = "MACHINE d\n".as_bytes();
    let result: Command = parse_sunday_line(thingy).unwrap();
    assert_eq!(result, Command::MACHINE { machine: Machine::BigDrink });
}

#[test]
fn test_parse_invalid_machine() {
    // An unrecognized alias in an otherwise well-formed MACHINE line is a
    // recognized-but-malformed command, not a structural non-match.
    let thingy = "MACHINE h\n".as_bytes();
    let result: Option<Command> = parse_sunday_line(thingy);
    assert_eq!(
        result,
        Some(Command::INVALID { reason: String::from("MACHINE: Invalid Alias") })
    );
}

#[test]
fn test_parse_ibutton() {
    let thingy = "IBUTTON 47000023def1f402\n".as_bytes();
    let result: Command = parse_sunday_line(thingy).unwrap();
    assert_eq!(result, Command::IBUTTON { ibutton: String::from("47000023def1f402") });
}

#[test]
fn machine_aliases_parse_to_their_machines() {
    assert_eq!(
        parse_sunday_line("MACHINE ld\n".as_bytes()),
        Some(Command::MACHINE { machine: Machine::LittleDrink })
    );
    assert_eq!(
        parse_sunday_line("MACHINE d\n".as_bytes()),
        Some(Command::MACHINE { machine: Machine::BigDrink })
    );
    assert_eq!(
        parse_sunday_line("MACHINE s\n".as_bytes()),
        Some(Command::MACHINE { machine: Machine::Snack })
    );
}

#[test]
fn parsing_is_deterministic() {
    let inputs: [&[u8]; 4] = [
        "USER rossdylan\n".as_bytes(),
        "DROP 3 5\n".as_bytes(),
        "MACHINE h\n".as_bytes(),
        "garbage".as_bytes(),
    ];
    for input in inputs {
        assert_eq!(parse_sunday_line(input), parse_sunday_line(input));
    }
}

#[test]
fn drop_with_delay() {
    assert_eq!(
        parse_sunday_line("DROP 3 5\n".as_bytes()),
        Some(Command::DROP { slot: 3, delay: 5 })
    );
}

#[test]
fn drop_without_delay_defaults_to_zero() {
    assert_eq!(
        parse_sunday_line("DROP 3 \n".as_bytes()),
        Some(Command::DROP { slot: 3, delay: 0 })
    );
}

#[test]
fn drop_without_trailing_space_does_not_parse() {
    assert_eq!(parse_sunday_line("DROP 3\n".as_bytes()), None);
}

#[test]
fn drop_with_overflowing_number_does_not_parse() {
    // 2^64 does not fit in an unsigned 64-bit slot number.
    assert_eq!(parse_sunday_line("DROP 18446744073709551616 1\n".as_bytes()), None);
    // u64::MAX itself still fits.
    assert_eq!(
        parse_sunday_line("DROP 18446744073709551615 1\n".as_bytes()),
        Some(Command::DROP { slot: u64::MAX, delay: 1 })
    );
}

#[test]
fn unterminated_lines_do_not_parse() {
    assert_eq!(parse_sunday_line("USER rossdylan".as_bytes()), None);
    assert_eq!(parse_sunday_line("STAT".as_bytes()), None);
    assert_eq!(parse_sunday_line("DROP 3 5".as_bytes()), None);
    assert_eq!(parse_sunday_line("MACHINE ld".as_bytes()), None);
}

#[test]
fn bare_keyword_commands_parse() {
    assert_eq!(parse_sunday_line("STAT\n".as_bytes()), Some(Command::STAT));
    assert_eq!(parse_sunday_line("GETBALANCE\n".as_bytes()), Some(Command::GETBALANCE));
    assert_eq!(parse_sunday_line("UPTIME\n".as_bytes()), Some(Command::UPTIME));
}

#[test]
fn sendcredits_parses_number_and_username() {
    assert_eq!(
        parse_sunday_line("SENDCREDITS 10 rossdylan\n".as_bytes()),
        Some(Command::SENDCREDITS { credits: 10, username: String::from("rossdylan") })
    );
}

#[test]
fn unknown_keywords_do_not_parse() {
    assert_eq!(parse_sunday_line("FOO bar\n".as_bytes()), None);
    assert_eq!(parse_sunday_line("\n".as_bytes()), None);
    assert_eq!(parse_sunday_line("".as_bytes()), None);
}

#[test]
fn empty_free_text_field_is_kept() {
    assert_eq!(
        parse_sunday_line("USER \n".as_bytes()),
        Some(Command::USER { username: String::from("") })
    );
}

#[test]
fn free_text_runs_to_the_first_terminator() {
    assert_eq!(
        parse_sunday_line("USER a\nUSER b\n".as_bytes()),
        Some(Command::USER { username: String::from("a") })
    );
}

#[test]
fn invalid_utf8_in_free_text_gives_invalid_command() {
    let mut line: Vec<u8> = Vec::new();
    line.extend_from_slice("USER ".as_bytes());
    line.push(0xff);
    line.push(b'\n');
    assert_eq!(
        parse_sunday_line(&line),
        Some(Command::INVALID { reason: String::from("USER: UTF8 Error") })
    );
}

#[test]
fn machine_from_str_maps_every_alias() {
    assert_eq!(machine_from_str("ld"), Ok(Machine::LittleDrink));
    assert_eq!(machine_from_str("d"), Ok(Machine::BigDrink));
    assert_eq!(machine_from_str("s"), Ok(Machine::Snack));
    assert_eq!(machine_from_str("h"), Err("Invalid Machine Alias"));
}

#[test]
fn machine_names() {
    assert_eq!(Machine::LittleDrink.name(), "LittleDrink");
    assert_eq!(Machine::BigDrink.name(), "BigDrink");
    assert_eq!(Machine::Snack.name(), "Snack");
    assert_eq!(Machine::Unknown.name(), "Unknown");
}
