use phoenix::shell::{
    parse_command, parse_decimal, parse_time, split_words, ShellCommand, set_time_of_day, time_of_day_parts, LineEditor, LineEvent, TimeError,
};

#[test]
fn line_editor_stores_printable_bytes_and_drops_control_ones() {
    let mut line = LineEditor::new();
    assert_eq!(line.feed(b'l'), LineEvent::Echo);
    assert_eq!(line.feed(b's'), LineEvent::Echo);
    assert_eq!(line.feed(0x01), LineEvent::Ignore);
    assert_eq!(line.bytes(), b"ls");
    assert_eq!(line.feed(b'\r'), LineEvent::Submit);
    assert_eq!(line.bytes(), b"ls");
}

#[test]
fn backspace_erases_a_whole_character() {
    let mut line = LineEditor::new();
    for &b in "aé".as_bytes() {
        assert_eq!(line.feed(b), LineEvent::Echo);
    }
    assert_eq!(line.bytes().len(), 3);
    assert_eq!(line.feed(0x7f), LineEvent::Erase);
    assert_eq!(line.bytes(), b"a");
    assert_eq!(line.feed(0x08), LineEvent::Erase);
    assert_eq!(line.bytes(), b"");
    assert_eq!(line.feed(0x08), LineEvent::Ignore);
}

#[test]
fn bytes_inside_a_character_are_stored_even_if_they_look_like_control_ones() {
    let mut line = LineEditor::new();
    assert_eq!(line.feed(0xc3), LineEvent::Echo);
    // Between the bytes of a character, a backspace is just another byte.
    assert_eq!(line.feed(0x08), LineEvent::Echo);
    assert_eq!(line.bytes(), &[0xc3, 0x08]);
}

#[test]
fn line_editor_holds_at_most_256_bytes() {
    let mut line = LineEditor::new();
    for _ in 0 .. 256 {
        assert_eq!(line.feed(b'x'), LineEvent::Echo);
    }
    assert_eq!(line.feed(b'y'), LineEvent::Ignore);
    assert_eq!(line.bytes().len(), 256);
}

#[test]
fn parse_decimal_reads_like_from_str_radix() {
    assert_eq!(parse_decimal(b"042"), Some(42));
    assert_eq!(parse_decimal(b"+7"), Some(7));
    assert_eq!(parse_decimal(b"+"), None);
    assert_eq!(parse_decimal(b""), None);
    assert_eq!(parse_decimal(b"-1"), None);
    assert_eq!(parse_decimal(b"1a"), None);
    assert_eq!(parse_decimal(b"18446744073709551615"), Some(u64::MAX));
    assert_eq!(parse_decimal(b"18446744073709551616"), None);
}

#[test]
fn parse_time_reads_hours_minutes_and_seconds() {
    assert_eq!(parse_time(b"13:05:09"), Ok(13 * 3600 + 5 * 60 + 9));
    assert_eq!(parse_time(b"13"), Err(TimeError::MissingMinutes));
    assert_eq!(parse_time(b"13:05"), Err(TimeError::MissingSeconds));
    assert_eq!(parse_time(b"1:2:3:4"), Err(TimeError::TooManyComponents));
    assert_eq!(parse_time(b"1:x:3"), Err(TimeError::NotIntegers));
    assert_eq!(parse_time(b"24:00:00"), Err(TimeError::OutOfBounds));
    assert_eq!(parse_time(b"23:60:00"), Err(TimeError::OutOfBounds));
}

#[test]
fn setting_the_time_of_day_keeps_the_day() {
    let now = 3 * 86400 + 12345;
    assert_eq!(set_time_of_day(now, 3600), 3 * 86400 + 3600);
    assert_eq!(time_of_day_parts(3 * 86400 + 3600 + 2 * 60 + 5), (1, 2, 5));
}

fn words(line: &str) -> Vec<String> {
    split_words(line.as_bytes()).into_iter().map(|w| String::from_utf8(w).unwrap()).collect()
}

#[test]
fn lines_split_into_words() {
    assert_eq!(words(""), Vec::<String>::new());
    assert_eq!(words("   "), Vec::<String>::new());
    assert_eq!(words("contents a.txt  b.txt"), vec!["contents", "a.txt", "b.txt"]);
    assert_eq!(words("\tlist\x0b/boot\n"), vec!["list", "/boot"]);
    // Unicode whitespace separates words too; other characters do not.
    assert_eq!(words("run\u{3000}prog\u{a0}x\u{2003}y"), vec!["run", "prog", "x", "y"]);
    assert_eq!(words("caf\u{e9} na\u{ef}ve"), vec!["caf\u{e9}", "na\u{ef}ve"]);
    // The same results as `split_whitespace`.
    for line in ["a b", " \u{85}x\u{2028}y\u{205f}z ", "\u{1680}\u{202f}", "\u{200a}q\u{2009}"] {
        let expected: Vec<String> = line.split_whitespace().map(String::from).collect();
        assert_eq!(words(line), expected);
    }
}

#[test]
fn commands_by_their_words() {
    let cmd = |line: &str| parse_command(line.as_bytes());
    assert_eq!(cmd(""), ShellCommand::Empty);
    assert_eq!(cmd("help me"), ShellCommand::Help);
    assert_eq!(cmd("contents"), ShellCommand::Contents);
    assert_eq!(cmd("devices"), ShellCommand::Devices);
    assert_eq!(cmd("list"), ShellCommand::ListMissingPath);
    assert_eq!(cmd("list /"), ShellCommand::List);
    assert_eq!(cmd("list / /bin"), ShellCommand::ListTooManyArgs);
    assert_eq!(cmd("parse"), ShellCommand::ParseMissingFile);
    assert_eq!(cmd("parse a b"), ShellCommand::Parse);
    assert_eq!(cmd("profile"), ShellCommand::Profile);
    assert_eq!(cmd("profile reset"), ShellCommand::ProfileReset);
    assert_eq!(cmd("profile resets"), ShellCommand::ProfileUnexpected);
    assert_eq!(cmd("run"), ShellCommand::RunMissingFile);
    assert_eq!(cmd(" run  prog "), ShellCommand::Run);
    assert_eq!(cmd("shutdown"), ShellCommand::Shutdown);
    assert_eq!(cmd("shutdown now"), ShellCommand::ShutdownTooManyArgs);
    assert_eq!(cmd("time"), ShellCommand::ShowTime);
    assert_eq!(cmd("time 12:00:00"), ShellCommand::SetTime);
    assert_eq!(cmd("time 12:00:00 x"), ShellCommand::TimeTooManyArgs);
    assert_eq!(cmd("Help"), ShellCommand::Unrecognized);
    assert_eq!(cmd("helpme"), ShellCommand::Unrecognized);
}
