use geosia::console::{is_white_space_char, parse_console_command, ConsoleCommand};

#[test]
fn console_commands() {
    assert_eq!(parse_console_command(""), ConsoleCommand::Empty);
    assert_eq!(parse_console_command("   \t "), ConsoleCommand::Empty);
    assert_eq!(parse_console_command("stop"), ConsoleCommand::Shutdown);
    assert_eq!(parse_console_command("  quit now"), ConsoleCommand::Shutdown);
    assert_eq!(parse_console_command("\u{3000}exit"), ConsoleCommand::Shutdown);
    assert_eq!(parse_console_command("quitter"), ConsoleCommand::Unknown(String::from("quitter")));
    assert_eq!(parse_console_command(" hello world"), ConsoleCommand::Unknown(String::from("hello")));
    assert_eq!(parse_console_command("héllo\u{a0}x"), ConsoleCommand::Unknown(String::from("héllo")));
}

#[test]
fn white_space_matches_the_standard_library() {
    for c in ['\t', '\n', '\r', ' ', '\u{85}', '\u{a0}', '\u{2003}', '\u{3000}', 'a', '0', '\u{200b}', 'é'] {
        assert_eq!(is_white_space_char(c), c.is_whitespace(), "{c:?}");
    }
    for code in 0u32..0x3100 {
        if let Some(c) = char::from_u32(code) {
            assert_eq!(is_white_space_char(c), c.is_whitespace(), "{code:x}");
        }
    }
}
