//! The decisions of the command-line programs: the sample configuration,
//! the logout keys, and the WebUI launcher's arguments.

use vstd::prelude::*;
use crate::store::opt_view;
use crate::text::{chars_of, parse_unsigned, parse_unsigned_range, str_eq, trim, trim_chars};

verus! {

/// The sample configuration that is shown when no configuration file exists.
pub fn sample_config() -> (s: &'static str)
    ensures
        s@ == "server = \"10.100.61.3\"\nusername = \"your_username\"\npassword = \"your_password\"\nhost_ip = \"192.168.1.2\"\nmac = \"AA:BB:CC:DD:EE:FF\"\n\n# 以下为可选项，保持默认即可\n# host_name = \"YOURPCNAME\"\n# primary_dns = \"10.10.10.10\"\n# dhcp_server = \"0.0.0.0\"\n# bind_ip = \"0.0.0.0\"\n# is_test = true\n"@,
{
    "server = \"10.100.61.3\"\nusername = \"your_username\"\npassword = \"your_password\"\nhost_ip = \"192.168.1.2\"\nmac = \"AA:BB:CC:DD:EE:FF\"\n\n# 以下为可选项，保持默认即可\n# host_name = \"YOURPCNAME\"\n# primary_dns = \"10.10.10.10\"\n# dhcp_server = \"0.0.0.0\"\n# bind_ip = \"0.0.0.0\"\n# is_test = true\n"
}

/// The ASCII upper case of a lowercase letter.
pub open spec fn upper(c: char) -> char {
    ((c as u32) - 32) as char
}

/// A typed line that is the key `key`, in either case, once surrounding
/// whitespace is removed (`line.trim().eq_ignore_ascii_case(key)`).
pub open spec fn is_key_spec(line: Seq<char>, key: char) -> bool {
    trim(line) == seq![key] || trim(line) == seq![upper(key)]
}

/// Whether a typed line is the one-letter command `key` (a lowercase ASCII
/// letter), in either case.
pub fn is_key(line: &str, key: char) -> (b: bool)
    requires
        'a' <= key <= 'z',
    ensures
        b == is_key_spec(line@, key),
{
    let cs = chars_of(line);
    let t = trim_chars(&cs);
    let up: char = ((key as u8) - 32) as char;
    assert(up == upper(key));
    if t.len() != 1 {
        assert(!is_key_spec(line@, key));
        return false;
    }
    let c = t[0];
    let r = c == key || c == up;
    if r {
        assert(t@ =~= seq![c]);
    } else {
        assert(t@ != seq![key]);
        assert(t@ != seq![up]);
    }
    r
}

/// Where the logout prompt stands: waiting for a command, or for the answer
/// to "log out?".
#[derive(Debug, Clone, Copy, PartialEq, Eq, Structural)]
pub enum Prompt {
    Command,
    Confirm,
}

/// What the logout prompt does next.
#[derive(Debug, Clone, Copy, PartialEq, Eq, Structural)]
pub enum PromptAction {
    /// Read the next line.
    ReadLine,
    /// Ask whether to log out, then read the answer.
    AskConfirm,
    /// Say that logging out was cancelled, then read the next line.
    Resume,
    /// Request the session to stop (and log out), and stop listening.
    RequestStop,
    /// Stop listening.
    Stop,
}

/// One step of the logout prompt, after a line was read (`line`), the input
/// ended (`None`), or reading failed (`read_failed`). A command `q` asks for
/// confirmation; `y` confirms, anything else (an empty answer included)
/// resumes. The end of input stops listening at a command; a read error
/// stops listening at the confirmation and is skipped at a command.
pub open spec fn prompt_next(p: Prompt, line: Option<Seq<char>>, read_failed: bool) -> (Prompt, PromptAction) {
    match p {
        Prompt::Command => if read_failed {
            (Prompt::Command, PromptAction::ReadLine)
        } else {
            match line {
                None => (Prompt::Command, PromptAction::Stop),
                Some(l) => if is_key_spec(l, 'q') {
                    (Prompt::Confirm, PromptAction::AskConfirm)
                } else {
                    (Prompt::Command, PromptAction::ReadLine)
                },
            }
        },
        Prompt::Confirm => if read_failed {
            (Prompt::Confirm, PromptAction::Stop)
        } else {
            match line {
                Some(l) => if is_key_spec(l, 'y') {
                    (Prompt::Confirm, PromptAction::RequestStop)
                } else {
                    (Prompt::Command, PromptAction::Resume)
                },
                None => (Prompt::Command, PromptAction::Resume),
            }
        },
    }
}

/// Advances the logout prompt (see [`prompt_next`]).
pub fn prompt_step(p: Prompt, line: Option<&str>, read_failed: bool) -> (r: (Prompt, PromptAction))
    ensures
        r == prompt_next(p, opt_view(line), read_failed),
{
    match p {
        Prompt::Command => {
            if read_failed {
                return (Prompt::Command, PromptAction::ReadLine);
            }
            match line {
                None => (Prompt::Command, PromptAction::Stop),
                Some(l) => if is_key(l, 'q') {
                    (Prompt::Confirm, PromptAction::AskConfirm)
                } else {
                    (Prompt::Command, PromptAction::ReadLine)
                },
            }
        },
        Prompt::Confirm => {
            if read_failed {
                return (Prompt::Confirm, PromptAction::Stop);
            }
            match line {
                Some(l) => if is_key(l, 'y') {
                    (Prompt::Confirm, PromptAction::RequestStop)
                } else {
                    (Prompt::Command, PromptAction::Resume)
                },
                None => (Prompt::Command, PromptAction::Resume),
            }
        },
    }
}

/// The options of the WebUI launcher.
#[derive(Debug, Clone, Copy, PartialEq, Eq, Structural)]
pub struct WebArgs {
    /// Port to listen on; 0 picks a free one.
    pub port: u16,
    /// Whether to open a browser.
    pub open_browser: bool,
    /// Whether help was asked for (the launcher prints usage and exits).
    pub show_help: bool,
}

/// The port that `--port <value>` sets: the value as a `u16`, or 0.
pub open spec fn port_value(v: Seq<char>) -> u16 {
    match parse_unsigned(v, 10, 65535) {
        Some(p) => p as u16,
        None => 0,
    }
}

/// The launcher options after reading `args` from position `i`: `--port`
/// takes the next argument (when there is one), `--no-open` turns the browser
/// off, `-h` and `--help` stop reading, anything else is ignored.
pub open spec fn web_args_from(args: Seq<String>, i: int, port: u16, open: bool) -> WebArgs
    decreases args.len() - i,
{
    if i < 0 || i >= args.len() {
        WebArgs { port, open_browser: open, show_help: false }
    } else if args[i]@ == "--port"@ {
        if i + 1 < args.len() {
            web_args_from(args, i + 2, port_value(args[i + 1]@), open)
        } else {
            web_args_from(args, i + 1, port, open)
        }
    } else if args[i]@ == "--no-open"@ {
        web_args_from(args, i + 1, port, false)
    } else if args[i]@ == "-h"@ || args[i]@ == "--help"@ {
        WebArgs { port, open_browser: open, show_help: true }
    } else {
        web_args_from(args, i + 1, port, open)
    }
}

fn parse_port(v: &str) -> (p: u16)
    ensures
        p == port_value(v@),
{
    let cs = chars_of(v);
    let n = cs.len();
    assert(cs@.subrange(0, n as int) =~= cs@);
    match parse_unsigned_range(&cs, 0, n, 10, 65535) {
        Some(p) => p as u16,
        None => 0,
    }
}

/// Reads the WebUI launcher's arguments (without the program name).
pub fn parse_web_args(args: &Vec<String>) -> (r: WebArgs)
    ensures
        r == web_args_from(args@, 0, 0, true),
{
    let mut port: u16 = 0;
    let mut open: bool = true;
    let mut i: usize = 0;
    while i < args.len()
        invariant
            i <= args@.len(),
            web_args_from(args@, 0, 0, true) == web_args_from(args@, i as int, port, open),
        decreases args@.len() - i,
    {
        let a = args[i].as_str();
        if str_eq(a, "--port") {
            if i + 1 < args.len() {
                port = parse_port(args[i + 1].as_str());
                i = i + 2;
            } else {
                i = i + 1;
            }
        } else if str_eq(a, "--no-open") {
            open = false;
            i = i + 1;
        } else if str_eq(a, "-h") || str_eq(a, "--help") {
            return WebArgs { port, open_browser: open, show_help: true };
        } else {
            i = i + 1;
        }
    }
    WebArgs { port, open_browser: open, show_help: false }
}

} // verus!
