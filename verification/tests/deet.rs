use cs110l::deet::{
    align_addr_to_word, breakpoint_target, byte_of, parse_address, with_byte, BreakpointTarget,
    DebuggerCommand,
};

fn command(line: &str) -> Option<DebuggerCommand> {
    let tokens: Vec<&str> = line.split_whitespace().collect();
    DebuggerCommand::from_tokens(&tokens)
}

#[test]
fn commands_are_known_in_full_and_in_short() {
    assert_eq!(command("q"), Some(DebuggerCommand::Quit));
    assert_eq!(command("quit"), Some(DebuggerCommand::Quit));
    assert_eq!(command("c"), Some(DebuggerCommand::Continue));
    assert_eq!(command("cont"), Some(DebuggerCommand::Continue));
    assert_eq!(command("continue"), Some(DebuggerCommand::Continue));
    assert_eq!(command("bt"), Some(DebuggerCommand::Backtrace));
    assert_eq!(command("back"), Some(DebuggerCommand::Backtrace));
    assert_eq!(command("backtrace"), Some(DebuggerCommand::Backtrace));
    assert_eq!(command("p"), Some(DebuggerCommand::Print));
    assert_eq!(command("print"), Some(DebuggerCommand::Print));
}

#[test]
fn run_takes_the_other_words_as_arguments() {
    assert_eq!(command("r"), Some(DebuggerCommand::Run(vec![])));
    assert_eq!(
        command("run one  two three"),
        Some(DebuggerCommand::Run(vec![
            String::from("one"),
            String::from("two"),
            String::from("three")
        ]))
    );
}

#[test]
fn break_takes_the_second_word_as_target() {
    assert_eq!(command("b main"), Some(DebuggerCommand::Break(String::from("main"))));
    assert_eq!(command("break *0x4005b8 more"), Some(DebuggerCommand::Break(String::from("*0x4005b8"))));
    assert_eq!(command("b"), None);
    assert_eq!(command("break"), None);
}

#[test]
fn other_words_are_no_command() {
    assert_eq!(command("Quit"), None);
    assert_eq!(command("qu"), None);
    assert_eq!(command("quit!"), None);
    assert_eq!(command("next"), None);
    assert_eq!(command("q r"), Some(DebuggerCommand::Quit));
}

#[test]
fn parse_address_reads_hexadecimal_with_or_without_prefix() {
    assert_eq!(parse_address("0x4005b8"), Some(0x4005b8));
    assert_eq!(parse_address("4005b8"), Some(0x4005b8));
    assert_eq!(parse_address("0X4005B8"), Some(0x4005b8));
    assert_eq!(parse_address("0"), Some(0));
    assert_eq!(parse_address("0x0"), Some(0));
    assert_eq!(parse_address("ffffffffffffffff"), usize::from_str_radix("ffffffffffffffff", 16).ok());
}

#[test]
fn parse_address_refuses_what_is_no_address() {
    assert_eq!(parse_address(""), None);
    assert_eq!(parse_address("0x"), None);
    assert_eq!(parse_address("0xg"), None);
    assert_eq!(parse_address("main"), None);
    assert_eq!(parse_address("-1"), None);
    assert_eq!(parse_address("0x0x1"), None);
    assert_eq!(parse_address("10000000000000000000000"), None);
}

#[test]
fn align_addr_to_word_rounds_down_to_a_word() {
    let word = std::mem::size_of::<usize>();
    assert_eq!(align_addr_to_word(0), 0);
    assert_eq!(align_addr_to_word(1), 0);
    assert_eq!(align_addr_to_word(word - 1), 0);
    assert_eq!(align_addr_to_word(word), word);
    assert_eq!(align_addr_to_word(0x4005b9), 0x4005b9 & (-(word as isize) as usize));
    assert_eq!(align_addr_to_word(usize::MAX), usize::MAX - (word - 1));
    for addr in [5usize, 8, 15, 16, 17, 1000, 123456789] {
        assert_eq!(align_addr_to_word(addr), addr & (-(word as isize) as usize));
    }
}

#[test]
fn a_breakpoint_is_an_address_a_line_or_a_function() {
    assert_eq!(breakpoint_target("*0x4005b8"), BreakpointTarget::Address(0x4005b8));
    assert_eq!(breakpoint_target("*4005b8"), BreakpointTarget::Address(0x4005b8));
    assert_eq!(breakpoint_target("*0X10"), BreakpointTarget::Address(16));
    assert_eq!(breakpoint_target("*0"), BreakpointTarget::Address(0));
    assert_eq!(breakpoint_target("*"), BreakpointTarget::InvalidAddress);
    assert_eq!(breakpoint_target("*0x"), BreakpointTarget::InvalidAddress);
    assert_eq!(breakpoint_target("*main"), BreakpointTarget::InvalidAddress);
    assert_eq!(breakpoint_target("15"), BreakpointTarget::Line(15));
    assert_eq!(breakpoint_target("+15"), BreakpointTarget::Line(15));
    assert_eq!(breakpoint_target("main"), BreakpointTarget::Function(String::from("main")));
    assert_eq!(breakpoint_target("0x15"), BreakpointTarget::Function(String::from("0x15")));
    assert_eq!(breakpoint_target("ff"), BreakpointTarget::Function(String::from("ff")));
    assert_eq!(breakpoint_target(""), BreakpointTarget::Function(String::new()));
}

#[test]
fn a_byte_of_a_word_is_read_and_replaced() {
    let word: u64 = 0x1122334455667788;
    assert_eq!(byte_of(word, 0), 0x88);
    assert_eq!(byte_of(word, 3), 0x55);
    assert_eq!(byte_of(word, 7), 0x11);
    assert_eq!(with_byte(word, 0, 0xcc), 0x11223344556677cc);
    assert_eq!(with_byte(word, 3, 0xcc), 0x11223344cc667788);
    assert_eq!(with_byte(word, 7, 0xcc), 0xcc22334455667788);
    for offset in 0..8 {
        let updated = with_byte(word, offset, 0xcc);
        assert_eq!(byte_of(updated, offset), 0xcc);
        assert_eq!(with_byte(updated, offset, byte_of(word, offset)), word);
        for other in 0..8 {
            if other != offset {
                assert_eq!(byte_of(updated, other), byte_of(word, other));
            }
        }
    }
}
