use dang::user_commands::{parse_breakpoint_arg, BreakpointTarget, CommandAction, CommandRegistry, UserCommand};

#[test]
fn test_parse_breakpoint_arg_invalid_address() {
    assert!(parse_breakpoint_arg("invalid").is_err());
    assert!(parse_breakpoint_arg("gg").is_err());
}

#[test]
fn test_parse_breakpoint_arg_valid_address() {
    assert_eq!(parse_breakpoint_arg("0x1000").unwrap(), BreakpointTarget::Address(0x1000));
    assert_eq!(parse_breakpoint_arg("ABCD").unwrap(), BreakpointTarget::Address(0xABCD));
}

#[test]
fn test_parse_breakpoint_arg_invalid_file() {
    assert!(parse_breakpoint_arg("file.c:invalid").is_err());
    assert!(parse_breakpoint_arg(":42").is_err());
}

#[test]
fn test_parse_breakpoint_arg_valid_filepath_with_line() {
    assert_eq!(
        parse_breakpoint_arg("main.c:42").unwrap(),
        BreakpointTarget::FileLine { file: String::from("main.c"), line: 42 }
    );
    assert_eq!(
        parse_breakpoint_arg("src/lib.rs:123").unwrap(),
        BreakpointTarget::FileLine { file: String::from("src/lib.rs"), line: 123 }
    );
}

#[test]
fn breakpoint_arg_errors_carry_messages() {
    assert_eq!(
        parse_breakpoint_arg("   ").unwrap_err(),
        "breakpoint requires an address or file:line argument"
    );
    assert_eq!(parse_breakpoint_arg(" zz ").unwrap_err(), "Invalid breakpoint format: zz");
    assert_eq!(parse_breakpoint_arg("0x100000000").unwrap_err(), "Invalid breakpoint format: 0x100000000");
    assert_eq!(parse_breakpoint_arg(" 0X10 ").unwrap(), BreakpointTarget::Address(0x10));
}

#[test]
fn registry_finds_aliases() {
    let r = CommandRegistry::new();
    assert_eq!(r.get_command("q"), Some(UserCommand::Quit));
    assert_eq!(r.get_command(" "), Some(UserCommand::Next));
    assert_eq!(r.get_command("sfc"), Some(UserCommand::SurferConnect));
    assert_eq!(r.get_command("nope"), None);
}

#[test]
fn command_metadata() {
    assert_eq!(UserCommand::Breakpoint.name(), "breakpoint");
    assert_eq!(UserCommand::Next.aliases(), vec!["next", "n", " "]);
    assert_eq!(UserCommand::Help.usage(), "help [command]");
    assert_eq!(UserCommand::all().len(), 12);
    assert_eq!(UserCommand::Breakpoint.examples().len(), 4);
}

#[test]
fn execute_help_and_breakpoint() {
    match UserCommand::Help.execute("") {
        Ok(CommandAction::ShowHelp(lines)) => {
            assert_eq!(lines.len(), 19);
            assert_eq!(lines[2], "  quit, q   -- Exit the debugger");
            assert_eq!(lines[3], "  next, n,   -- Execute the next instruction");
        }
        _ => panic!("expected help"),
    }
    match UserCommand::Help.execute(" quit ") {
        Ok(CommandAction::ShowHelp(lines)) => {
            assert_eq!(lines[0], "Help for 'quit':");
            assert_eq!(lines[4], "Aliases: quit, q");
            assert_eq!(lines[7], "  quit");
        }
        _ => panic!("expected help"),
    }
    assert_eq!(UserCommand::Help.execute("zzz").err().unwrap(), "Unknown command: zzz");
    match UserCommand::Breakpoint.execute("main.c:7") {
        Ok(CommandAction::SetBreakpoint(t)) => {
            assert_eq!(t, BreakpointTarget::FileLine { file: "main.c".to_string(), line: 7 })
        }
        _ => panic!("expected breakpoint"),
    }
    match UserCommand::SurferConnect.execute("") {
        Ok(CommandAction::ConnectSurfer(a)) => assert_eq!(a, "127.0.0.1:54321"),
        _ => panic!("expected connect"),
    }
    let r = CommandRegistry::new();
    assert!(matches!(r.execute_command("c", ""), Ok(CommandAction::Continue)));
    assert_eq!(r.execute_command("xyz", "").err().unwrap(), "Unknown command: xyz");
}
