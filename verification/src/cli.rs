//! The command line, and the files that an installation writes.

use vstd::prelude::*;

use crate::text::{
    begins, chars_of, contains_text, law_occurs, occurs, same, string_of, trim, trimmed,
};

verus! {

// ── Commands ──────────────────────────────────────────────────────────────────

/// What the program was started for.
#[derive(PartialEq, Eq, Structural, Clone, Copy, Debug)]
pub enum Command {
    /// Ask the daemon for a tab, and start it where it does not run.
    StartTab(Tab),
    /// Toggle the window.
    Client,
    /// Ask the daemon, which has to run, for a tab.
    ShowTab(Tab),
    /// Choose from the lines of the standard input.
    Input,
    /// Choose a theme.
    Themes,
    Install,
    Restart,
    Daemon,
}

/// A tab that can be asked for.
#[derive(PartialEq, Eq, Structural, Clone, Copy, Debug)]
pub enum Tab {
    Apps,
    Pass,
    Clip,
    Files,
}

/// How a tab is named in a message.
pub open spec fn tab_name(tab: Tab) -> Seq<char> {
    match tab {
        Tab::Apps => "apps"@,
        Tab::Pass => "pass"@,
        Tab::Clip => "clip"@,
        Tab::Files => "files"@,
    }
}

impl Tab {
    /// How the tab is named in a message.
    pub fn name(&self) -> (r: &'static str)
        ensures
            r@ == tab_name(*self),
    {
        match self {
            Tab::Apps => "apps",
            Tab::Pass => "pass",
            Tab::Clip => "clip",
            Tab::Files => "files",
        }
    }
}

/// The command for the first argument. On Linux a client starts the daemon where it does
/// not run. Without an argument, or with an unknown one, the program is the daemon.
pub open spec fn command_of(arg: Option<Seq<char>>, linux: bool) -> Command {
    if arg == Some("--client"@) {
        if linux {
            Command::StartTab(Tab::Apps)
        } else {
            Command::Client
        }
    } else if arg == Some("--password"@) {
        if linux {
            Command::StartTab(Tab::Pass)
        } else {
            Command::ShowTab(Tab::Pass)
        }
    } else if arg == Some("--clipboard"@) {
        if linux {
            Command::StartTab(Tab::Clip)
        } else {
            Command::ShowTab(Tab::Clip)
        }
    } else if arg == Some("--files"@) {
        if linux {
            Command::StartTab(Tab::Files)
        } else {
            Command::ShowTab(Tab::Files)
        }
    } else if arg == Some("--pass"@) {
        Command::ShowTab(Tab::Pass)
    } else if arg == Some("--clip"@) {
        Command::ShowTab(Tab::Clip)
    } else if arg == Some("--input"@) {
        Command::Input
    } else if arg == Some("--themes"@) {
        Command::Themes
    } else if arg == Some("--install"@) {
        Command::Install
    } else if arg == Some("--restart"@) {
        Command::Restart
    } else {
        Command::Daemon
    }
}

/// Finds the command for the first argument.
pub fn parse_command(arg: Option<&str>, linux: bool) -> (r: Command)
    ensures
        r == command_of(
            match arg {
                Some(a) => Some(a@),
                None => None,
            },
            linux,
        ),
{
    match arg {
        Some(a) => {
            if same(a, "--client") {
                if linux {
                    Command::StartTab(Tab::Apps)
                } else {
                    Command::Client
                }
            } else if same(a, "--password") {
                if linux {
                    Command::StartTab(Tab::Pass)
                } else {
                    Command::ShowTab(Tab::Pass)
                }
            } else if same(a, "--clipboard") {
                if linux {
                    Command::StartTab(Tab::Clip)
                } else {
                    Command::ShowTab(Tab::Clip)
                }
            } else if same(a, "--files") {
                if linux {
                    Command::StartTab(Tab::Files)
                } else {
                    Command::ShowTab(Tab::Files)
                }
            } else if same(a, "--pass") {
                Command::ShowTab(Tab::Pass)
            } else if same(a, "--clip") {
                Command::ShowTab(Tab::Clip)
            } else if same(a, "--input") {
                Command::Input
            } else if same(a, "--themes") {
                Command::Themes
            } else if same(a, "--install") {
                Command::Install
            } else if same(a, "--restart") {
                Command::Restart
            } else {
                Command::Daemon
            }
        },
        None => Command::Daemon,
    }
}

/// What a second daemon says before it ends. `pid_file` is what the file with the process
/// id of the first one holds.
pub fn already_running_message(pid_file: &str) -> (r: String)
    ensures
        r@ == "mofi: daemon already running (pid "@ + trimmed(pid_file@)
            + "). Not starting a second instance."@,
{
    let v = chars_of(pid_file);
    let pid = string_of(trim(v.as_slice()));
    let mut r = String::new();
    r.append("mofi: daemon already running (pid ");
    r.append(pid.as_str());
    r.append("). Not starting a second instance.");
    assert(r@ =~= "mofi: daemon already running (pid "@ + trimmed(pid_file@)
        + "). Not starting a second instance."@);
    r
}

// ── Installed files ───────────────────────────────────────────────────────────

/// What stands before the path of the program in the launchd agent.
pub const PLIST_HEAD: &'static str = "<?xml version=\"1.0\" encoding=\"UTF-8\"?>\n<!DOCTYPE plist PUBLIC \"-//Apple//DTD PLIST 1.0//EN\" \"http://www.apple.com/DTDs/PropertyList-1.0.dtd\">\n<plist version=\"1.0\">\n<dict>\n    <key>Label</key>\n    <string>com.user.mofi</string>\n    <key>ProgramArguments</key>\n    <array>\n        <string>";

/// What stands behind the path of the program in the launchd agent.
pub const PLIST_TAIL: &'static str = "</string>\n        <string>--daemon</string>\n    </array>\n    <key>RunAtLoad</key>\n    <true/>\n    <key>KeepAlive</key>\n    <true/>\n    <key>StandardOutPath</key>\n    <string>/tmp/mofi-daemon.log</string>\n    <key>StandardErrorPath</key>\n    <string>/tmp/mofi-daemon.log</string>\n</dict>\n</plist>\n";

/// The launchd agent that runs the daemon.
pub fn launchd_plist(bin: &str) -> (r: String)
    ensures
        r@ == PLIST_HEAD@ + bin@ + PLIST_TAIL@,
{
    let mut r = String::new();
    r.append(PLIST_HEAD);
    r.append(bin);
    r.append(PLIST_TAIL);
    assert(r@ =~= PLIST_HEAD@ + bin@ + PLIST_TAIL@);
    r
}

/// What stands before the path of the program in the systemd service.
pub const SERVICE_HEAD: &'static str = "[Unit]\nDescription=mofi launcher daemon\nAfter=graphical-session.target\nPartOf=graphical-session.target\n\n[Service]\nExecStart=";

/// What stands behind the path of the program in the systemd service.
pub const SERVICE_TAIL: &'static str = " --daemon\nRestart=on-failure\nRestartSec=3s\n\n[Install]\nWantedBy=graphical-session.target\n";

/// The systemd user service that runs the daemon.
pub fn systemd_service(bin: &str) -> (r: String)
    ensures
        r@ == SERVICE_HEAD@ + bin@ + SERVICE_TAIL@,
{
    let mut r = String::new();
    r.append(SERVICE_HEAD);
    r.append(bin);
    r.append(SERVICE_TAIL);
    assert(r@ =~= SERVICE_HEAD@ + bin@ + SERVICE_TAIL@);
    r
}

/// The hotkeys for skhd: Apps, Pass and Clipboard.
pub open spec fn hotkeys(bin: Seq<char>) -> Seq<char> {
    "cmd - space : "@ + bin + " --client\ncmd + shift - p : "@ + bin
        + " --pass\ncmd + shift - y : "@ + bin + " --clip"@
}

/// What is appended to the configuration of skhd: the hotkeys under a marker, unless the
/// marker is there already.
pub open spec fn skhd_block(existing: Seq<char>, bin: Seq<char>) -> Option<Seq<char>> {
    if occurs(existing, "# mofi"@) {
        None
    } else {
        Some("\n# mofi\n"@ + hotkeys(bin) + seq!['\n'])
    }
}

/// Makes what is appended to the configuration of skhd, if anything.
pub fn skhd_addition(existing: &str, bin: &str) -> (r: Option<String>)
    ensures
        crate::text::opt_text(r) == skhd_block(existing@, bin@),
{
    let v = chars_of(existing);
    if contains_text(v.as_slice(), "# mofi") {
        return None;
    }
    let mut r = String::new();
    r.append("\n# mofi\n");
    r.append("cmd - space : ");
    r.append(bin);
    r.append(" --client\ncmd + shift - p : ");
    r.append(bin);
    r.append(" --pass\ncmd + shift - y : ");
    r.append(bin);
    r.append(" --clip");
    r.push('\n');
    assert(r@ =~= "\n# mofi\n"@ + hotkeys(bin@) + seq!['\n']);
    Some(r)
}

/// Installing twice adds the hotkeys once: behind the first addition there is nothing more
/// to add.
pub proof fn law_hotkeys_once(existing: Seq<char>, bin: Seq<char>, block: Seq<char>)
    requires
        skhd_block(existing, bin) == Some(block),
    ensures
        skhd_block(existing + block, bin) is None,
{
    reveal_strlit("\n# mofi\n");
    reveal_strlit("# mofi");
    let all = existing + block;
    let i = existing.len() as int + 1;
    assert(all.subrange(i, i + 6) =~= "# mofi"@) by {
        assert forall|k: int| 0 <= k < 6 implies all[i + k] == #[trigger] "# mofi"@[k] by {
            assert(all[i + k] == block[k + 1]);
            assert(block[k + 1] == "\n# mofi\n"@[k + 1]);
        }
    }
    assert(crate::text::occurs_at(all, "# mofi"@, i));
}

/// The configuration file that an installation creates.
pub const DEFAULT_CONFIG: &'static str = "theme = \"kanagawa\"\n";

/// The tab that a command asks for is the tab that the daemon opens.
pub proof fn law_tab_opens(tab: Tab)
    ensures
        crate::ui::requested_mode(Some(tab_name(tab))) == match tab {
            Tab::Apps => crate::ui::Mode::Apps,
            Tab::Pass => crate::ui::Mode::Pass,
            Tab::Clip => crate::ui::Mode::Clipboard,
            Tab::Files => crate::ui::Mode::Files,
        },
{
    reveal_strlit("apps");
    reveal_strlit("pass");
    reveal_strlit("clip");
    reveal_strlit("files");
    assert("apps"@[0] == 'a' && "pass"@[0] == 'p' && "clip"@[0] == 'c' && "files"@[0] == 'f');
}

/// An argument asks for the same tab on every system, and for nothing else on another; only on
/// Linux does it start the daemon.
pub proof fn law_same_tab_everywhere(arg: Option<Seq<char>>)
    ensures
        match command_of(arg, true) {
            Command::StartTab(tab) => command_of(arg, false) == Command::ShowTab(tab) || (tab
                == Tab::Apps && command_of(arg, false) == Command::Client),
            other => command_of(arg, false) == other,
        },
        !(command_of(arg, false) is StartTab),
{
}

/// Every argument that means something is its own, and any other makes the program the daemon.
pub proof fn law_unknown_argument(arg: Seq<char>, linux: bool)
    ensures
        command_of(None, linux) == Command::Daemon,
        !begins(arg, "--"@) ==> command_of(Some(arg), linux) == Command::Daemon,
{
    reveal_strlit("--");
    reveal_strlit("--client");
    reveal_strlit("--password");
    reveal_strlit("--clipboard");
    reveal_strlit("--files");
    reveal_strlit("--pass");
    reveal_strlit("--clip");
    reveal_strlit("--input");
    reveal_strlit("--themes");
    reveal_strlit("--install");
    reveal_strlit("--restart");
    if command_of(Some(arg), linux) != Command::Daemon {
        assert(arg.len() >= 2 && arg[0] == '-' && arg[1] == '-');
        assert(arg.take(2) =~= "--"@);
    }
}

/// The tabs that can be asked for by a short name have a long one that asks for the same.
pub proof fn law_long_and_short(linux: bool)
    ensures
        command_of(Some("--pass"@), linux) == command_of(Some("--password"@), false),
        command_of(Some("--clip"@), linux) == command_of(Some("--clipboard"@), false),
{
    reveal_strlit("--client");
    reveal_strlit("--password");
    reveal_strlit("--clipboard");
    reveal_strlit("--files");
    reveal_strlit("--pass");
    reveal_strlit("--clip");
    assert("--pass"@.len() == 6 && "--clip"@.len() == 6 && "--password"@.len() == 10);
    assert("--client"@.len() == 8 && "--clipboard"@.len() == 11 && "--files"@.len() == 7);
    assert("--pass"@[2] == 'p' && "--clip"@[2] == 'c');
}

/// Without the marker, what is added holds the marker and a hotkey with the whole path of the
/// program for each of the three.
pub proof fn law_hotkeys_added(existing: Seq<char>, bin: Seq<char>)
    requires
        !occurs(existing, "# mofi"@),
    ensures
        skhd_block(existing, bin) matches Some(block) && {
            &&& occurs(block, "# mofi"@)
            &&& occurs(block, "cmd - space : "@ + bin + " --client\n"@)
            &&& occurs(block, "cmd + shift - p : "@ + bin + " --pass\n"@)
            &&& occurs(block, "cmd + shift - y : "@ + bin + " --clip\n"@)
        },
{
    reveal_strlit("\n# mofi\n");
    reveal_strlit("# mofi");
    reveal_strlit("cmd - space : ");
    reveal_strlit(" --client\ncmd + shift - p : ");
    reveal_strlit(" --client\n");
    reveal_strlit("cmd + shift - p : ");
    reveal_strlit(" --pass\ncmd + shift - y : ");
    reveal_strlit(" --pass\n");
    reveal_strlit("cmd + shift - y : ");
    reveal_strlit(" --clip");
    reveal_strlit(" --clip\n");
    let block = "\n# mofi\n"@ + hotkeys(bin) + seq!['\n'];
    let one = "cmd - space : "@ + bin + " --client\n"@;
    let two = "cmd + shift - p : "@ + bin + " --pass\n"@;
    let three = "cmd + shift - y : "@ + bin + " --clip\n"@;
    let head = "\n# mofi\n"@;
    let e = Seq::<char>::empty();
    assert(block =~= head + one + two + three);
    assert(block =~= seq!['\n'] + "# mofi"@ + (seq!['\n'] + one + two + three));
    assert(block =~= head + one + (two + three));
    assert(block =~= (head + one) + two + three);
    assert(block =~= (head + one + two) + three + e);
    law_occurs(block, "# mofi"@);
    law_occurs(block, one);
    law_occurs(block, two);
    law_occurs(block, three);
}

} // verus!
