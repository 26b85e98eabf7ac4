use rvsim::repl::{parse_command, parse_hex_u32, split_command, Command, CommandError, HexError};

#[test]
fn command_aliases() {
    for l in ["n", "next"] {
        assert_eq!(parse_command(l), Ok(Command::Next));
    }
    for l in ["c", "continue"] {
        assert_eq!(parse_command(l), Ok(Command::Continue));
    }
    for l in ["q", "quit", "exit"] {
        assert_eq!(parse_command(l), Ok(Command::Quit));
    }
    assert_eq!(parse_command("i regs"), Ok(Command::InfoRegs));
    assert_eq!(parse_command("info regs"), Ok(Command::InfoRegs));
}

#[test]
fn address_commands() {
    assert_eq!(parse_command("b 0x10"), Ok(Command::Break(0x10)));
    assert_eq!(parse_command("bp 0xdeadBEEF"), Ok(Command::Break(0xdead_beef)));
    assert_eq!(parse_command("break   0x0"), Ok(Command::Break(0)));
    assert_eq!(parse_command("rb 0x8"), Ok(Command::DeleteBreak(8)));
    assert_eq!(parse_command("db 0x8"), Ok(Command::DeleteBreak(8)));
    assert_eq!(parse_command("delbreakpoint 0x8"), Ok(Command::DeleteBreak(8)));
    assert_eq!(parse_command("d 0x100"), Ok(Command::Disasm(0x100)));
    assert_eq!(parse_command("disasm 0x+ff"), Ok(Command::Disasm(0xff)));
}

#[test]
fn command_errors() {
    assert_eq!(parse_command("b 10"), Err(CommandError::BreakUsage));
    assert_eq!(parse_command("b"), Err(CommandError::BreakUsage));
    assert_eq!(parse_command("rb x"), Err(CommandError::DeleteBreakUsage));
    assert_eq!(parse_command("d"), Err(CommandError::DisasmUsage));
    assert_eq!(parse_command("i"), Err(CommandError::InfoUsage));
    assert_eq!(parse_command("info registers"), Err(CommandError::InfoUsage));
    assert_eq!(parse_command("step"), Err(CommandError::Unknown));
    assert_eq!(parse_command(" n"), Err(CommandError::Unknown));
    assert_eq!(parse_command("b 0x"), Err(CommandError::BadHex(HexError::Empty)));
    assert_eq!(parse_command("b 0xzz"), Err(CommandError::BadHex(HexError::InvalidDigit)));
    assert_eq!(parse_command("b 0x100000000"), Err(CommandError::BadHex(HexError::Overflow)));
}

#[test]
fn hex_literals() {
    assert_eq!(parse_hex_u32("0"), Ok(0));
    assert_eq!(parse_hex_u32("ffffffff"), Ok(u32::MAX));
    assert_eq!(parse_hex_u32("00000000ffffffff"), Ok(u32::MAX));
    assert_eq!(parse_hex_u32("+1A"), Ok(0x1a));
    assert_eq!(parse_hex_u32(""), Err(HexError::Empty));
    assert_eq!(parse_hex_u32("+"), Err(HexError::InvalidDigit));
    assert_eq!(parse_hex_u32("-1"), Err(HexError::InvalidDigit));
    assert_eq!(parse_hex_u32("1g"), Err(HexError::InvalidDigit));
    assert_eq!(parse_hex_u32("1ffffffffg"), Err(HexError::Overflow));
    for s in ["0", "ffffffff", "+1A", "", "+", "-1", "1g", "123456789", "7fffFFFF"] {
        assert_eq!(parse_hex_u32(s).ok(), u32::from_str_radix(s, 16).ok());
    }
}

#[test]
fn split_name_and_argument() {
    assert_eq!(split_command("b  \t0x10"), ("b", "0x10"));
    assert_eq!(split_command("next"), ("next", ""));
    assert_eq!(split_command("i regs x"), ("i", "regs x"));
    assert_eq!(split_command(""), ("", ""));
}
