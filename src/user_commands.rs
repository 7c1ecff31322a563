use vstd::prelude::*;
use vstd::string::*;
use vstd::utf8::*;

use crate::gdb::bytes_eq;
use crate::hex::{parse_unsigned, unsigned_text_ok, unsigned_text_value};
use crate::text::{ascii_bytes, ascii_of, copy_bytes, lossy_text, push_ascii, text_from_bytes, trim_text, trimmed};

verus! {

/// A parsed breakpoint argument.
#[derive(Debug, PartialEq)]
pub enum BreakpointTarget {
    Address(u32),
    FileLine { file: String, line: u64 },
}

pub open spec fn empty_arg_error() -> Seq<char> {
    "breakpoint requires an address or file:line argument"@
}

pub open spec fn invalid_format_prefix() -> Seq<u8> {
    ascii_bytes("Invalid breakpoint format: "@)
}

/// `k` is the last `:` of `b`.
pub open spec fn last_colon_at(b: Seq<u8>, k: int) -> bool {
    &&& 0 <= k < b.len()
    &&& b[k] == 58
    &&& forall|j: int| k < j < b.len() ==> b[j] != 58
}

/// `file:line`: a nonempty file before the last `:`, a decimal line after it.
pub open spec fn file_line_split(b: Seq<u8>, k: int) -> bool {
    &&& last_colon_at(b, k)
    &&& k > 0
    &&& unsigned_text_ok(b.subrange(k + 1, b.len() as int), 10, u64::MAX as nat)
}

/// The hex digits of an address, after an optional `0x` or `0X`.
pub open spec fn address_digits(b: Seq<u8>) -> Seq<u8> {
    if b.len() >= 2 && b[0] == 48 && (b[1] == 120 || b[1] == 88) {
        b.subrange(2, b.len() as int)
    } else {
        b
    }
}

/// What parsing the bytes `b` of a trimmed breakpoint argument yields.
pub open spec fn breakpoint_parsed(b: Seq<u8>, r: Result<BreakpointTarget, String>) -> bool {
    if b.len() == 0 {
        r matches Err(e) && e@ == empty_arg_error()
    } else if exists|k: int| file_line_split(b, k) {
        let k = choose|k: int| file_line_split(b, k);
        r matches Ok(BreakpointTarget::FileLine { file, line }) && file@ == lossy_text(
            b.subrange(0, k),
        ) && line as nat == unsigned_text_value(b.subrange(k + 1, b.len() as int), 10)
    } else if unsigned_text_ok(address_digits(b), 16, u32::MAX as nat) {
        r == Ok::<BreakpointTarget, String>(
            BreakpointTarget::Address(unsigned_text_value(address_digits(b), 16) as u32),
        )
    } else {
        r matches Err(e) && e@ == lossy_text(invalid_format_prefix() + b)
    }
}

/// Parses an already trimmed breakpoint argument: `file:line` when the text
/// after the last `:` is a line number and the file is not empty, else a hex
/// address with an optional `0x`.
pub fn parse_breakpoint_bytes(b: &[u8]) -> (r: Result<BreakpointTarget, String>)
    ensures
        breakpoint_parsed(b@, r),
{
    proof {
        reveal_strlit("breakpoint requires an address or file:line argument");
        reveal_strlit("Invalid breakpoint format: ");
    }
    let n = b.len();
    if n == 0 {
        let msg = text_from_bytes(ascii_of("breakpoint requires an address or file:line argument"));
        assert(msg@ =~= empty_arg_error());
        return Err(msg);
    }
    let mut k: usize = n;
    while k > 0 && b[k - 1] != 58
        invariant
            k <= n,
            n == b@.len(),
            forall|j: int| k <= j < n ==> b@[j] != 58,
        decreases k,
    {
        k -= 1;
    }
    if k > 0 {
        let colon = k - 1;
        assert(last_colon_at(b@, colon as int));
        let line_part = copy_bytes(b, colon + 1, n);
        if colon > 0 {
            match parse_unsigned(line_part.as_slice(), 10) {
                Some(line) => {
                    assert(file_line_split(b@, colon as int));
                    proof {
                        let c = choose|c: int| file_line_split(b@, c);
                        lemma_last_colon_unique(b@, colon as int, c);
                    }
                    let file_part = copy_bytes(b, 0, colon);
                    let file = text_from_bytes(file_part.as_slice());
                    return Ok(BreakpointTarget::FileLine { file, line });
                },
                None => {},
            }
        }
        assert forall|c: int| !file_line_split(b@, c) by {
            if file_line_split(b@, c) {
                lemma_last_colon_unique(b@, colon as int, c);
            }
        }
    } else {
        assert forall|c: int| !file_line_split(b@, c) by {
            if file_line_split(b@, c) {
                assert(b@[c] == 58);
            }
        }
    }
    let digits = if n >= 2 && b[0] == 48 && (b[1] == 120 || b[1] == 88) {
        copy_bytes(b, 2, n)
    } else {
        copy_bytes(b, 0, n)
    };
    assert(digits@ =~= address_digits(b@));
    match parse_unsigned(digits.as_slice(), 16) {
        Some(v) => {
            if v <= 0xffff_ffff {
                return Ok(BreakpointTarget::Address(v as u32));
            }
        },
        None => {},
    }
    let mut msg: Vec<u8> = Vec::new();
    push_ascii(&mut msg, "Invalid breakpoint format: ");
    let mut i: usize = 0;
    let ghost before = msg@;
    while i < n
        invariant
            i <= n,
            n == b@.len(),
            msg@ =~= before + b@.take(i as int),
        decreases n - i,
    {
        msg.push(b[i]);
        i += 1;
    }
    assert(b@.take(n as int) =~= b@);
    Err(text_from_bytes(msg.as_slice()))
}

pub proof fn lemma_last_colon_unique(b: Seq<u8>, k1: int, k2: int)
    requires
        last_colon_at(b, k1),
        last_colon_at(b, k2),
    ensures
        k1 == k2,
{
    if k1 < k2 {
        assert(b[k2] != 58);
    } else if k2 < k1 {
        assert(b[k1] != 58);
    }
}

/// Parses a breakpoint argument after trimming it: an address (hex, with or
/// without `0x`) or `file:line`.
pub fn parse_breakpoint_arg(input: &str) -> (r: Result<BreakpointTarget, String>)
    ensures
        breakpoint_parsed(encode_utf8(trimmed(input@)), r),
{
    let t = trim_text(input);
    parse_breakpoint_bytes(t.as_bytes())
}

/// The debugger's interactive commands.
#[derive(Debug, Clone, Copy, PartialEq, Eq, Structural)]
pub enum UserCommand {
    Quit,
    Next,
    Step,
    Help,
    Clear,
    Breakpoint,
    Continue,
    Toggle,
    Addsig,
    Debug,
    Surfer,
    SurferConnect,
}

pub open spec fn cmd_name(c: UserCommand) -> Seq<char> {
    match c {
        UserCommand::Quit => "quit"@,
        UserCommand::Next => "next"@,
        UserCommand::Step => "step"@,
        UserCommand::Help => "help"@,
        UserCommand::Clear => "clear"@,
        UserCommand::Breakpoint => "breakpoint"@,
        UserCommand::Continue => "continue"@,
        UserCommand::Toggle => "toggle"@,
        UserCommand::Addsig => "addsig"@,
        UserCommand::Debug => "debug"@,
        UserCommand::Surfer => "surfer"@,
        UserCommand::SurferConnect => "surferconnect"@,
    }
}

pub open spec fn cmd_aliases(c: UserCommand) -> Seq<Seq<char>> {
    match c {
        UserCommand::Quit => seq!["quit"@, "q"@],
        UserCommand::Next => seq!["next"@, "n"@, " "@],
        UserCommand::Step => seq!["step"@, "s"@],
        UserCommand::Help => seq!["help"@, "h"@],
        UserCommand::Clear => seq!["clear"@, "cl"@],
        UserCommand::Breakpoint => seq!["breakpoint"@, "b"@],
        UserCommand::Continue => seq!["continue"@, "c"@],
        UserCommand::Toggle => seq!["toggle"@, "t"@],
        UserCommand::Addsig => seq!["addsig"@, "as"@],
        UserCommand::Debug => seq!["debug"@, "d"@],
        UserCommand::Surfer => seq!["surfer"@, "sf"@],
        UserCommand::SurferConnect => seq!["surferconnect"@, "sfc"@],
    }
}

pub open spec fn cmd_description(c: UserCommand) -> Seq<char> {
    match c {
        UserCommand::Quit => "Exit the debugger"@,
        UserCommand::Next => "Execute the next instruction"@,
        UserCommand::Step => "Step one instruction (same as next)"@,
        UserCommand::Help => "Show help information"@,
        UserCommand::Clear => "Clear the screen"@,
        UserCommand::Breakpoint => "Set a breakpoint at the specified address or file:line"@,
        UserCommand::Continue => "Continue execution until breakpoint"@,
        UserCommand::Toggle => "Toggle split view (instructions | source code)"@,
        UserCommand::Addsig => "Open floating window to add waveform signals via fuzzy search"@,
        UserCommand::Debug => "Toggle debug panel"@,
        UserCommand::Surfer => "Launch Surfer waveform viewer and connect to it"@,
        UserCommand::SurferConnect => "Connect to a running Surfer instance"@,
    }
}

pub open spec fn cmd_usage(c: UserCommand) -> Seq<char> {
    match c {
        UserCommand::Quit => "quit"@,
        UserCommand::Next => "next"@,
        UserCommand::Step => "step"@,
        UserCommand::Help => "help [command]"@,
        UserCommand::Clear => "clear"@,
        UserCommand::Breakpoint => "breakpoint <address|file:line>"@,
        UserCommand::Continue => "continue"@,
        UserCommand::Toggle => "toggle"@,
        UserCommand::Addsig => "addsig"@,
        UserCommand::Debug => "debug"@,
        UserCommand::Surfer => "surfer"@,
        UserCommand::SurferConnect => "surferconnect [address:port]"@,
    }
}

pub open spec fn cmd_examples(c: UserCommand) -> Seq<Seq<char>> {
    match c {
        UserCommand::Quit => seq!["quit"@, "q"@],
        UserCommand::Next => seq!["next"@, "n"@, " "@],
        UserCommand::Step => seq!["step"@, "s"@],
        UserCommand::Help => seq!["help"@, "help next"@, "h quit"@],
        UserCommand::Clear => seq!["clear"@, "cl"@],
        UserCommand::Breakpoint => seq!["breakpoint 0x1000"@, "b 1000"@, "b main.c:42"@, "b src/lib.rs:123"@],
        UserCommand::Continue => seq!["continue"@, "c"@],
        UserCommand::Toggle => seq!["toggle"@, "t"@],
        UserCommand::Addsig => seq!["addsig"@, "as"@],
        UserCommand::Debug => seq!["debug"@, "d"@],
        UserCommand::Surfer => seq!["surfer"@, "sf"@],
        UserCommand::SurferConnect => seq!["surferconnect"@, "sfc"@, "surferconnect 127.0.0.1:3333"@],
    }
}

pub open spec fn all_commands() -> Seq<UserCommand> {
    seq![UserCommand::Quit, UserCommand::Next, UserCommand::Step, UserCommand::Help, UserCommand::Clear, UserCommand::Breakpoint, UserCommand::Continue, UserCommand::Toggle, UserCommand::Addsig, UserCommand::Debug, UserCommand::Surfer, UserCommand::SurferConnect]
}

pub open spec fn str_views(v: Seq<&'static str>) -> Seq<Seq<char>> {
    v.map_values(|s: &'static str| s@)
}

pub open spec fn all_ascii_strs(v: Seq<&'static str>) -> bool {
    forall|i: int| 0 <= i < v.len() ==> is_ascii(#[trigger] v[i])
}

impl UserCommand {
    /// The primary name.
    pub fn name(&self) -> (r: &'static str)
        ensures
            r@ == cmd_name(*self),
            is_ascii(r),
    {
        proof {
            reveal_strlit("quit");
            reveal_strlit("next");
            reveal_strlit("step");
            reveal_strlit("help");
            reveal_strlit("clear");
            reveal_strlit("breakpoint");
            reveal_strlit("continue");
            reveal_strlit("toggle");
            reveal_strlit("addsig");
            reveal_strlit("debug");
            reveal_strlit("surfer");
            reveal_strlit("surferconnect");
        }
        match self {
            UserCommand::Quit => "quit",
            UserCommand::Next => "next",
            UserCommand::Step => "step",
            UserCommand::Help => "help",
            UserCommand::Clear => "clear",
            UserCommand::Breakpoint => "breakpoint",
            UserCommand::Continue => "continue",
            UserCommand::Toggle => "toggle",
            UserCommand::Addsig => "addsig",
            UserCommand::Debug => "debug",
            UserCommand::Surfer => "surfer",
            UserCommand::SurferConnect => "surferconnect",
        }
    }

    /// Every name the command answers to, the primary one first.
    pub fn aliases(&self) -> (r: Vec<&'static str>)
        ensures
            str_views(r@) == cmd_aliases(*self),
            all_ascii_strs(r@),
    {
        let mut v: Vec<&'static str> = Vec::new();
        match self {
            UserCommand::Quit => {
                proof {
                    reveal_strlit("quit");
                    reveal_strlit("q");
                }
                v.push("quit");
                v.push("q");
            },
            UserCommand::Next => {
                proof {
                    reveal_strlit("next");
                    reveal_strlit("n");
                    reveal_strlit(" ");
                }
                v.push("next");
                v.push("n");
                v.push(" ");
            },
            UserCommand::Step => {
                proof {
                    reveal_strlit("step");
                    reveal_strlit("s");
                }
                v.push("step");
                v.push("s");
            },
            UserCommand::Help => {
                proof {
                    reveal_strlit("help");
                    reveal_strlit("h");
                }
                v.push("help");
                v.push("h");
            },
            UserCommand::Clear => {
                proof {
                    reveal_strlit("clear");
                    reveal_strlit("cl");
                }
                v.push("clear");
                v.push("cl");
            },
            UserCommand::Breakpoint => {
                proof {
                    reveal_strlit("breakpoint");
                    reveal_strlit("b");
                }
                v.push("breakpoint");
                v.push("b");
            },
            UserCommand::Continue => {
                proof {
                    reveal_strlit("continue");
                    reveal_strlit("c");
                }
                v.push("continue");
                v.push("c");
            },
            UserCommand::Toggle => {
                proof {
                    reveal_strlit("toggle");
                    reveal_strlit("t");
                }
                v.push("toggle");
                v.push("t");
            },
            UserCommand::Addsig => {
                proof {
                    reveal_strlit("addsig");
                    reveal_strlit("as");
                }
                v.push("addsig");
                v.push("as");
            },
            UserCommand::Debug => {
                proof {
                    reveal_strlit("debug");
                    reveal_strlit("d");
                }
                v.push("debug");
                v.push("d");
            },
            UserCommand::Surfer => {
                proof {
                    reveal_strlit("surfer");
                    reveal_strlit("sf");
                }
                v.push("surfer");
                v.push("sf");
            },
            UserCommand::SurferConnect => {
                proof {
                    reveal_strlit("surferconnect");
                    reveal_strlit("sfc");
                }
                v.push("surferconnect");
                v.push("sfc");
            },
        }
        assert(str_views(v@) =~= cmd_aliases(*self));
        v
    }

    /// A one-line description for help listings.
    pub fn description(&self) -> (r: &'static str)
        ensures
            r@ == cmd_description(*self),
            is_ascii(r),
    {
        proof {
            reveal_strlit("Exit the debugger");
            reveal_strlit("Execute the next instruction");
            reveal_strlit("Step one instruction (same as next)");
            reveal_strlit("Show help information");
            reveal_strlit("Clear the screen");
            reveal_strlit("Set a breakpoint at the specified address or file:line");
            reveal_strlit("Continue execution until breakpoint");
            reveal_strlit("Toggle split view (instructions | source code)");
            reveal_strlit("Open floating window to add waveform signals via fuzzy search");
            reveal_strlit("Toggle debug panel");
            reveal_strlit("Launch Surfer waveform viewer and connect to it");
            reveal_strlit("Connect to a running Surfer instance");
        }
        match self {
            UserCommand::Quit => "Exit the debugger",
            UserCommand::Next => "Execute the next instruction",
            UserCommand::Step => "Step one instruction (same as next)",
            UserCommand::Help => "Show help information",
            UserCommand::Clear => "Clear the screen",
            UserCommand::Breakpoint => "Set a breakpoint at the specified address or file:line",
            UserCommand::Continue => "Continue execution until breakpoint",
            UserCommand::Toggle => "Toggle split view (instructions | source code)",
            UserCommand::Addsig => "Open floating window to add waveform signals via fuzzy search",
            UserCommand::Debug => "Toggle debug panel",
            UserCommand::Surfer => "Launch Surfer waveform viewer and connect to it",
            UserCommand::SurferConnect => "Connect to a running Surfer instance",
        }
    }

    /// How the command is written.
    pub fn usage(&self) -> (r: &'static str)
        ensures
            r@ == cmd_usage(*self),
            is_ascii(r),
    {
        proof {
            reveal_strlit("quit");
            reveal_strlit("next");
            reveal_strlit("step");
            reveal_strlit("help [command]");
            reveal_strlit("clear");
            reveal_strlit("breakpoint <address|file:line>");
            reveal_strlit("continue");
            reveal_strlit("toggle");
            reveal_strlit("addsig");
            reveal_strlit("debug");
            reveal_strlit("surfer");
            reveal_strlit("surferconnect [address:port]");
        }
        match self {
            UserCommand::Quit => "quit",
            UserCommand::Next => "next",
            UserCommand::Step => "step",
            UserCommand::Help => "help [command]",
            UserCommand::Clear => "clear",
            UserCommand::Breakpoint => "breakpoint <address|file:line>",
            UserCommand::Continue => "continue",
            UserCommand::Toggle => "toggle",
            UserCommand::Addsig => "addsig",
            UserCommand::Debug => "debug",
            UserCommand::Surfer => "surfer",
            UserCommand::SurferConnect => "surferconnect [address:port]",
        }
    }

    /// Example invocations.
    pub fn examples(&self) -> (r: Vec<&'static str>)
        ensures
            str_views(r@) == cmd_examples(*self),
            all_ascii_strs(r@),
    {
        let mut v: Vec<&'static str> = Vec::new();
        match self {
            UserCommand::Quit => {
                proof {
                    reveal_strlit("quit");
                    reveal_strlit("q");
                }
                v.push("quit");
                v.push("q");
            },
            UserCommand::Next => {
                proof {
                    reveal_strlit("next");
                    reveal_strlit("n");
                    reveal_strlit(" ");
                }
                v.push("next");
                v.push("n");
                v.push(" ");
            },
            UserCommand::Step => {
                proof {
                    reveal_strlit("step");
                    reveal_strlit("s");
                }
                v.push("step");
                v.push("s");
            },
            UserCommand::Help => {
                proof {
                    reveal_strlit("help");
                    reveal_strlit("help next");
                    reveal_strlit("h quit");
                }
                v.push("help");
                v.push("help next");
                v.push("h quit");
            },
            UserCommand::Clear => {
                proof {
                    reveal_strlit("clear");
                    reveal_strlit("cl");
                }
                v.push("clear");
                v.push("cl");
            },
            UserCommand::Breakpoint => {
                proof {
                    reveal_strlit("breakpoint 0x1000");
                    reveal_strlit("b 1000");
                    reveal_strlit("b main.c:42");
                    reveal_strlit("b src/lib.rs:123");
                }
                v.push("breakpoint 0x1000");
                v.push("b 1000");
                v.push("b main.c:42");
                v.push("b src/lib.rs:123");
            },
            UserCommand::Continue => {
                proof {
                    reveal_strlit("continue");
                    reveal_strlit("c");
                }
                v.push("continue");
                v.push("c");
            },
            UserCommand::Toggle => {
                proof {
                    reveal_strlit("toggle");
                    reveal_strlit("t");
                }
                v.push("toggle");
                v.push("t");
            },
            UserCommand::Addsig => {
                proof {
                    reveal_strlit("addsig");
                    reveal_strlit("as");
                }
                v.push("addsig");
                v.push("as");
            },
            UserCommand::Debug => {
                proof {
                    reveal_strlit("debug");
                    reveal_strlit("d");
                }
                v.push("debug");
                v.push("d");
            },
            UserCommand::Surfer => {
                proof {
                    reveal_strlit("surfer");
                    reveal_strlit("sf");
                }
                v.push("surfer");
                v.push("sf");
            },
            UserCommand::SurferConnect => {
                proof {
                    reveal_strlit("surferconnect");
                    reveal_strlit("sfc");
                    reveal_strlit("surferconnect 127.0.0.1:3333");
                }
                v.push("surferconnect");
                v.push("sfc");
                v.push("surferconnect 127.0.0.1:3333");
            },
        }
        assert(str_views(v@) =~= cmd_examples(*self));
        v
    }

    /// Every command, in help order.
    pub fn all() -> (r: Vec<UserCommand>)
        ensures
            r@ == all_commands(),
    {
        let mut v: Vec<UserCommand> = Vec::new();
        v.push(UserCommand::Quit);
        v.push(UserCommand::Next);
        v.push(UserCommand::Step);
        v.push(UserCommand::Help);
        v.push(UserCommand::Clear);
        v.push(UserCommand::Breakpoint);
        v.push(UserCommand::Continue);
        v.push(UserCommand::Toggle);
        v.push(UserCommand::Addsig);
        v.push(UserCommand::Debug);
        v.push(UserCommand::Surfer);
        v.push(UserCommand::SurferConnect);
        assert(v@ =~= all_commands());
        v
    }
}

/// `(alias, command)` for every alias of every command, in order.
pub open spec fn alias_table_of(cmds: Seq<UserCommand>) -> Seq<(Seq<char>, UserCommand)>
    decreases cmds.len(),
{
    if cmds.len() == 0 {
        Seq::empty()
    } else {
        alias_table_of(cmds.drop_last()) + cmd_aliases(cmds.last()).map_values(
            |a: Seq<char>| (a, cmds.last()),
        )
    }
}

pub open spec fn alias_table() -> Seq<(Seq<char>, UserCommand)> {
    alias_table_of(all_commands())
}

/// The command an alias names; a later entry wins.
pub open spec fn find_alias(t: Seq<(Seq<char>, UserCommand)>, name: Seq<char>) -> Option<
    UserCommand,
>
    decreases t.len(),
{
    if t.len() == 0 {
        None
    } else if t.last().0 == name {
        Some(t.last().1)
    } else {
        find_alias(t.drop_last(), name)
    }
}

/// Looks commands up by any of their names.
pub struct CommandRegistry {
    alias_map: Vec<(&'static str, UserCommand)>,
}

pub open spec fn entry_views(v: Seq<(&'static str, UserCommand)>) -> Seq<(Seq<char>, UserCommand)> {
    v.map_values(|e: (&'static str, UserCommand)| (e.0@, e.1))
}

/// What a command asks the debugger to do.
pub enum CommandAction {
    Quit,
    StepNext,
    ShowHelp(Vec<String>),
    ClearHistory,
    SetBreakpoint(BreakpointTarget),
    Continue,
    ToggleSplitView,
    OpenAddsig,
    ToggleDebugPanel,
    LaunchSurfer,
    ConnectSurfer(String),
}

/// Aliases joined with `, `.
pub open spec fn join_aliases(a: Seq<Seq<char>>) -> Seq<char>
    decreases a.len(),
{
    if a.len() == 0 {
        Seq::empty()
    } else if a.len() == 1 {
        a[0]
    } else {
        join_aliases(a.drop_last()) + ", "@ + a.last()
    }
}

/// `s` padded with spaces to at least `w` characters.
pub open spec fn pad_to(s: Seq<char>, w: nat) -> Seq<char> {
    if s.len() >= w {
        s
    } else {
        s + Seq::new((w - s.len()) as nat, |_i: int| ' ')
    }
}

pub open spec fn overview_line(c: UserCommand) -> Seq<char> {
    "  "@ + pad_to(join_aliases(cmd_aliases(c)), 9) + " -- "@ + cmd_description(c)
}

/// The help text listing every command.
pub open spec fn overview_lines(cmds: Seq<UserCommand>) -> Seq<Seq<char>>
    decreases cmds.len(),
{
    if cmds.len() == 0 {
        Seq::empty()
    } else {
        overview_lines(cmds.drop_last()).push(overview_line(cmds.last()))
    }
}

pub open spec fn help_overview() -> Seq<Seq<char>> {
    seq!["Current command abbreviations (type 'help command alias' for more info):"@, ""@]
        + overview_lines(all_commands()) + seq![
        ""@,
        "Keyboard shortcuts:"@,
        "  Ctrl+D    -- Quit the debugger"@,
        "  Ctrl+L    -- Clear screen"@,
        ""@,
    ]
}

/// The help text of one command.
pub open spec fn help_for(c: UserCommand) -> Seq<Seq<char>> {
    seq![
        "Help for '"@ + cmd_name(c) + "':"@,
        ""@,
        "Description: "@ + cmd_description(c),
        "Usage: "@ + cmd_usage(c),
        "Aliases: "@ + join_aliases(cmd_aliases(c)),
        ""@,
        "Examples:"@,
    ] + cmd_examples(c).map_values(|e: Seq<char>| "  "@ + e)
}

pub open spec fn string_views(v: Seq<String>) -> Seq<Seq<char>> {
    v.map_values(|s: String| s@)
}

pub open spec fn default_surfer_address() -> Seq<char> {
    "127.0.0.1:54321"@
}

/// What running `c` with the argument text `args` yields.
pub open spec fn executed(c: UserCommand, args: Seq<char>, r: Result<CommandAction, String>) -> bool {
    let t = trimmed(args);
    match c {
        UserCommand::Quit => r matches Ok(CommandAction::Quit),
        UserCommand::Next | UserCommand::Step => r matches Ok(CommandAction::StepNext),
        UserCommand::Help => if t.len() == 0 {
            r matches Ok(CommandAction::ShowHelp(lines)) && string_views(lines@) == help_overview()
        } else {
            match find_alias(alias_table(), t) {
                Some(h) => r matches Ok(CommandAction::ShowHelp(lines)) && string_views(lines@)
                    == help_for(h),
                None => r matches Err(e) && e@ == "Unknown command: "@ + t,
            }
        },
        UserCommand::Clear => r matches Ok(CommandAction::ClearHistory),
        UserCommand::Breakpoint => {
            let b = encode_utf8(t);
            match r {
                Ok(CommandAction::SetBreakpoint(target)) => breakpoint_parsed(
                    b,
                    Ok::<BreakpointTarget, String>(target),
                ),
                Err(e) => breakpoint_parsed(b, Err::<BreakpointTarget, String>(e)),
                _ => false,
            }
        },
        UserCommand::Continue => r matches Ok(CommandAction::Continue),
        UserCommand::Toggle => r matches Ok(CommandAction::ToggleSplitView),
        UserCommand::Addsig => r matches Ok(CommandAction::OpenAddsig),
        UserCommand::Debug => r matches Ok(CommandAction::ToggleDebugPanel),
        UserCommand::Surfer => r matches Ok(CommandAction::LaunchSurfer),
        UserCommand::SurferConnect => r matches Ok(CommandAction::ConnectSurfer(a)) && a@ == if t.len()
            == 0 {
            default_surfer_address()
        } else {
            t
        },
    }
}

fn join_strs(parts: &Vec<&'static str>) -> (r: (String, usize))
    requires
        all_ascii_strs(parts@),
        parts@.len() <= 4,
        forall|i: int| 0 <= i < parts@.len() ==> (#[trigger] parts@[i])@.len() <= 16,
    ensures
        r.0@ == join_aliases(str_views(parts@)),
        r.1 == r.0@.len(),
{
    broadcast use vstd::string::is_ascii_spec_bytes;

    let mut s = String::new();
    let mut len: usize = 0;
    let mut i: usize = 0;
    while i < parts.len()
        invariant
            i <= parts@.len(),
            parts@.len() <= 4,
            all_ascii_strs(parts@),
            forall|k: int| 0 <= k < parts@.len() ==> (#[trigger] parts@[k])@.len() <= 16,
            s@ == join_aliases(str_views(parts@).take(i as int)),
            len == s@.len(),
            len <= 18 * i,
        decreases parts.len() - i,
    {
        proof {
            reveal_strlit(", ");
            assert(str_views(parts@).take(i + 1).drop_last() =~= str_views(parts@).take(i as int));
        }
        let part = parts[i];
        assert(is_ascii(part));
        let plen = part.as_bytes().len();
        assert(part.spec_bytes().len() == part@.len());
        if i > 0 {
            s.append(", ");
            len = len + 2;
        }
        s.append(part);
        len = len + plen;
        proof {
            if i == 0 {
                assert(s@ =~= join_aliases(str_views(parts@).take(1)));
            }
        }
        i += 1;
    }
    assert(str_views(parts@).take(parts@.len() as int) =~= str_views(parts@));
    (s, len)
}

pub proof fn lemma_take_push_map<A, B>(s: Seq<A>, i: int, f: spec_fn(A) -> B)
    requires
        0 <= i < s.len(),
    ensures
        s.take(i + 1).map_values(f) == s.take(i).map_values(f).push(f(s[i])),
{
    assert(s.take(i + 1).map_values(f) =~= s.take(i).map_values(f).push(f(s[i])));
}

pub proof fn lemma_push_map<A, B>(s: Seq<A>, x: A, f: spec_fn(A) -> B)
    ensures
        s.push(x).map_values(f) == s.map_values(f).push(f(x)),
{
    assert(s.push(x).map_values(f) =~= s.map_values(f).push(f(x)));
}

/// A text of no characters has no bytes, and the other way round.
pub proof fn lemma_empty_text(t: Seq<char>)
    ensures
        (encode_utf8(t).len() == 0) == (t.len() == 0),
{
    broadcast use vstd::utf8::encode_utf8_decode_utf8;

    if encode_utf8(t).len() == 0 {
        assert(encode_utf8(t) =~= Seq::<u8>::empty());
        assert(decode_utf8(Seq::<u8>::empty()) =~= Seq::<char>::empty());
    }
    if t.len() == 0 {
        assert(encode_utf8(t) =~= Seq::<u8>::empty());
    }
}

impl UserCommand {
    fn overview_line(&self) -> (r: String)
        ensures
            r@ == overview_line(*self),
    {
        proof {
            reveal_strlit("  ");
            reveal_strlit(" ");
            reveal_strlit(" -- ");
        }
        let mut s = String::from_str("  ");
        let al = self.aliases();
        proof {
            lemma_alias_lengths(*self);
        }
        let (joined, jl) = join_strs(&al);
        let ghost j = joined@;
        let mut padded = joined;
        let mut len = jl;
        while len < 9
            invariant
                len == padded@.len(),
                len >= j.len(),
                j.len() >= 9 ==> len == j.len(),
                padded@ =~= j + Seq::new((len - j.len()) as nat, |_i: int| ' '),
                j.len() < 9 ==> len <= 9,
            decreases 9 - len,
        {
            proof {
                reveal_strlit(" ");
            }
            padded.append(" ");
            len = len + 1;
        }
        assert(padded@ =~= pad_to(j, 9));
        s.append(padded.as_str());
        s.append(" -- ");
        s.append(self.description());
        s
    }

    /// What the command asks of the debugger, given its argument text.
    pub fn execute(&self, args: &str) -> (r: Result<CommandAction, String>)
        ensures
            executed(*self, args@, r),
    {
        let t = trim_text(args);
        match self {
            UserCommand::Quit => Ok(CommandAction::Quit),
            UserCommand::Next | UserCommand::Step => Ok(CommandAction::StepNext),
            UserCommand::Help => {
                proof {
                    lemma_empty_text(t@);
                }
                if t.as_bytes().len() == 0 {
                    Ok(CommandAction::ShowHelp(help_overview_lines()))
                } else {
                    let registry = CommandRegistry::new();
                    match registry.get_command(t) {
                        Some(command) => Ok(CommandAction::ShowHelp(command.help_lines())),
                        None => {
                            proof {
                                reveal_strlit("Unknown command: ");
                            }
                            let mut e = String::from_str("Unknown command: ");
                            e.append(t);
                            Err(e)
                        },
                    }
                }
            },
            UserCommand::Clear => Ok(CommandAction::ClearHistory),
            UserCommand::Breakpoint => match parse_breakpoint_arg(args) {
                Ok(target) => Ok(CommandAction::SetBreakpoint(target)),
                Err(e) => Err(e),
            },
            UserCommand::Continue => Ok(CommandAction::Continue),
            UserCommand::Toggle => Ok(CommandAction::ToggleSplitView),
            UserCommand::Addsig => Ok(CommandAction::OpenAddsig),
            UserCommand::Debug => Ok(CommandAction::ToggleDebugPanel),
            UserCommand::Surfer => Ok(CommandAction::LaunchSurfer),
            UserCommand::SurferConnect => {
                proof {
                    reveal_strlit("127.0.0.1:54321");
                }
                proof {
                    lemma_empty_text(t@);
                }
                let addr = if t.as_bytes().len() == 0 {
                    String::from_str("127.0.0.1:54321")
                } else {
                    t.to_owned()
                };
                Ok(CommandAction::ConnectSurfer(addr))
            },
        }
    }

    /// The help text of this command.
    pub fn help_lines(&self) -> (r: Vec<String>)
        ensures
            string_views(r@) == help_for(*self),
    {
        proof {
            reveal_strlit("Help for '");
            reveal_strlit("':");
            reveal_strlit("");
            reveal_strlit("Description: ");
            reveal_strlit("Usage: ");
            reveal_strlit("Aliases: ");
            reveal_strlit("Examples:");
            reveal_strlit("  ");
            lemma_alias_lengths(*self);
        }
        let mut lines: Vec<String> = Vec::new();
        let mut l = String::from_str("Help for '");
        l.append(self.name());
        l.append("':");
        lines.push(l);
        lines.push(String::from_str(""));
        let mut l = String::from_str("Description: ");
        l.append(self.description());
        lines.push(l);
        let mut l = String::from_str("Usage: ");
        l.append(self.usage());
        lines.push(l);
        let mut l = String::from_str("Aliases: ");
        let (joined, _) = join_strs(&self.aliases());
        l.append(joined.as_str());
        lines.push(l);
        lines.push(String::from_str(""));
        lines.push(String::from_str("Examples:"));
        let ex = self.examples();
        let ghost head = string_views(lines@);
        let mut i: usize = 0;
        while i < ex.len()
            invariant
                i <= ex@.len(),
                str_views(ex@) == cmd_examples(*self),
                string_views(lines@) =~= head + cmd_examples(*self).take(i as int).map_values(
                    |e: Seq<char>| "  "@ + e,
                ),
            decreases ex.len() - i,
        {
            proof {
                reveal_strlit("  ");
            }
            let mut l = String::from_str("  ");
            l.append(ex[i]);
            assert(l@ == "  "@ + cmd_examples(*self)[i as int]);
            let ghost f = |e: Seq<char>| "  "@ + e;
            let ghost g = |s: String| s@;
            proof {
                lemma_take_push_map(cmd_examples(*self), i as int, f);
                lemma_push_map(lines@, l, g);
            }
            lines.push(l);
            assert(string_views(lines@) =~= head + cmd_examples(*self).take(i + 1).map_values(f));
            i += 1;
        }
        assert(cmd_examples(*self).take(ex@.len() as int) =~= cmd_examples(*self));
        assert(string_views(lines@) =~= help_for(*self));
        lines
    }
}

/// Every command has at most four aliases of at most sixteen characters.
pub proof fn lemma_alias_lengths(c: UserCommand)
    ensures
        cmd_aliases(c).len() <= 4,
        forall|i: int| 0 <= i < cmd_aliases(c).len() ==> (#[trigger] cmd_aliases(c)[i]).len() <= 16,
{
    reveal_strlit("quit");
    reveal_strlit("q");
    reveal_strlit("next");
    reveal_strlit("n");
    reveal_strlit(" ");
    reveal_strlit("step");
    reveal_strlit("s");
    reveal_strlit("help");
    reveal_strlit("h");
    reveal_strlit("clear");
    reveal_strlit("cl");
    reveal_strlit("breakpoint");
    reveal_strlit("b");
    reveal_strlit("continue");
    reveal_strlit("c");
    reveal_strlit("toggle");
    reveal_strlit("t");
    reveal_strlit("addsig");
    reveal_strlit("as");
    reveal_strlit("debug");
    reveal_strlit("d");
    reveal_strlit("surfer");
    reveal_strlit("sf");
    reveal_strlit("surferconnect");
    reveal_strlit("sfc");
}

fn help_overview_lines() -> (r: Vec<String>)
    ensures
        string_views(r@) == help_overview(),
{
    proof {
        reveal_strlit("Current command abbreviations (type 'help command alias' for more info):");
        reveal_strlit("");
        reveal_strlit("Keyboard shortcuts:");
        reveal_strlit("  Ctrl+D    -- Quit the debugger");
        reveal_strlit("  Ctrl+L    -- Clear screen");
    }
    let mut lines: Vec<String> = Vec::new();
    lines.push(
        String::from_str("Current command abbreviations (type 'help command alias' for more info):"),
    );
    lines.push(String::from_str(""));
    let cmds = UserCommand::all();
    let ghost head = string_views(lines@);
    let mut i: usize = 0;
    while i < cmds.len()
        invariant
            i <= cmds@.len(),
            cmds@ == all_commands(),
            string_views(lines@) =~= head + overview_lines(all_commands().take(i as int)),
        decreases cmds.len() - i,
    {
        let line = cmds[i].overview_line();
        let ghost g = |s: String| s@;
        proof {
            lemma_push_map(lines@, line, g);
            assert(all_commands().take(i + 1).drop_last() =~= all_commands().take(i as int));
        }
        lines.push(line);
        assert(string_views(lines@) =~= head + overview_lines(all_commands().take(i + 1)));
        i += 1;
    }
    assert(all_commands().take(12) =~= all_commands());
    let ghost mid = string_views(lines@);
    let mut tail: Vec<String> = Vec::new();
    tail.push(String::from_str(""));
    tail.push(String::from_str("Keyboard shortcuts:"));
    tail.push(String::from_str("  Ctrl+D    -- Quit the debugger"));
    tail.push(String::from_str("  Ctrl+L    -- Clear screen"));
    tail.push(String::from_str(""));
    let ghost tv = string_views(tail@);
    assert(tv =~= seq![
        ""@,
        "Keyboard shortcuts:"@,
        "  Ctrl+D    -- Quit the debugger"@,
        "  Ctrl+L    -- Clear screen"@,
        ""@,
    ]);
    lines.append(&mut tail);
    assert(string_views(lines@) =~= mid + tv);
    assert(string_views(lines@) =~= help_overview());
    lines
}

impl CommandRegistry {
    pub closed spec fn table(&self) -> Seq<(Seq<char>, UserCommand)> {
        entry_views(self.alias_map@)
    }

    pub open spec fn wf(&self) -> bool {
        self.table() == alias_table()
    }

    pub fn new() -> (r: Self)
        ensures
            r.wf(),
    {
        let cmds = UserCommand::all();
        let mut alias_map: Vec<(&'static str, UserCommand)> = Vec::new();
        let mut i: usize = 0;
        while i < cmds.len()
            invariant
                i <= cmds@.len(),
                cmds@ == all_commands(),
                entry_views(alias_map@) == alias_table_of(cmds@.take(i as int)),
            decreases cmds.len() - i,
        {
            let c = cmds[i];
            let al = c.aliases();
            let mut j: usize = 0;
            let ghost base = entry_views(alias_map@);
            assert(cmds@.take(i + 1).drop_last() =~= cmds@.take(i as int));
            assert(cmds@.take(i + 1).last() == c);
            while j < al.len()
                invariant
                    j <= al@.len(),
                    str_views(al@) == cmd_aliases(c),
                    entry_views(alias_map@) =~= base + cmd_aliases(c).take(j as int).map_values(
                        |a: Seq<char>| (a, c),
                    ),
                decreases al.len() - j,
            {
                assert(al@[j as int]@ == cmd_aliases(c)[j as int]);
                let ghost f = |a: Seq<char>| (a, c);
                let ghost g = |e: (&'static str, UserCommand)| (e.0@, e.1);
                proof {
                    lemma_take_push_map(cmd_aliases(c), j as int, f);
                    lemma_push_map(alias_map@, (al@[j as int], c), g);
                }
                alias_map.push((al[j], c));
                assert(entry_views(alias_map@) =~= base + cmd_aliases(c).take(j + 1).map_values(f));
                j += 1;
            }
            assert(cmd_aliases(c).take(al@.len() as int) =~= cmd_aliases(c));
            i += 1;
        }
        assert(cmds@.take(cmds@.len() as int) =~= cmds@);
        CommandRegistry { alias_map }
    }

    /// The command with this name or alias.
    pub fn get_command(&self, name: &str) -> (r: Option<UserCommand>)
        requires
            self.wf(),
        ensures
            r == find_alias(alias_table(), name@),
    {
        broadcast use vstd::utf8::encode_utf8_decode_utf8;

        let mut j: usize = self.alias_map.len();
        let ghost t = self.table();
        assert(t.take(j as int) =~= t);
        while j > 0
            invariant
                j <= self.alias_map@.len(),
                t == self.table(),
                t == alias_table(),
                find_alias(t, name@) == find_alias(t.take(j as int), name@),
            decreases j,
        {
            let (alias, c) = self.alias_map[j - 1];
            assert(t.take(j as int).drop_last() =~= t.take(j - 1));
            assert(t.take(j as int).last() == (alias@, c));
            if bytes_eq(alias.as_bytes(), name.as_bytes()) {
                proof {
                    vstd::utf8::encode_utf8_decode_utf8(alias@);
                    vstd::utf8::encode_utf8_decode_utf8(name@);
                }
                assert(alias@ == name@);

                return Some(c);
            }
            j -= 1;
        }
        None
    }

    /// Runs the named command, or says that no command has that name.
    pub fn execute_command(&self, name: &str, args: &str) -> (r: Result<CommandAction, String>)
        requires
            self.wf(),
        ensures
            match find_alias(alias_table(), name@) {
                Some(c) => executed(c, args@, r),
                None => r matches Err(e) && e@ == "Unknown command: "@ + name@,
            },
    {
        match self.get_command(name) {
            Some(command) => command.execute(args),
            None => {
                proof {
                    reveal_strlit("Unknown command: ");
                }
                let mut e = String::from_str("Unknown command: ");
                e.append(name);
                Err(e)
            },
        }
    }
}

} // verus!
