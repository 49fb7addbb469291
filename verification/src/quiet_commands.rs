//! Commands for panes that are to stay silent.
use crate::text;
use vstd::prelude::*;

verus! {

/// The shell that a silent command runs in.
#[derive(Debug, PartialEq, Eq)]
pub enum QuietShell {
    Unix,
    /// With the path of the command interpreter, `System32\cmd.exe` of the system.
    Windows { cmd: String },
}

/// A command that does nothing for a minute or more.
pub open spec fn quiet_command(shell: QuietShell) -> Seq<Seq<char>> {
    match shell {
        QuietShell::Unix => seq!["/bin/sh"@, "-c"@, "sleep 60"@],
        QuietShell::Windows { cmd } => seq![
            cmd@,
            "/d"@,
            "/q"@,
            "/c"@,
            "ping -n 120 127.0.0.1 >NUL"@,
        ],
    }
}

fn sleep_in_shell(shell: QuietShell) -> (command: Vec<String>)
    ensures
        text::views(command@) == quiet_command(shell),
{
    let mut command: Vec<String> = Vec::new();
    match shell {
        QuietShell::Unix => {
            command.push("/bin/sh".to_owned());
            command.push("-c".to_owned());
            command.push("sleep 60".to_owned());
        },
        QuietShell::Windows { cmd } => {
            command.push(cmd);
            command.push("/d".to_owned());
            command.push("/q".to_owned());
            command.push("/c".to_owned());
            command.push("ping -n 120 127.0.0.1 >NUL".to_owned());
        },
    }
    assert(text::views(command@) =~= quiet_command(shell));
    command
}

/// The command of a pane that shows nothing but overlays.
pub fn quiet_overlay_command(shell: QuietShell) -> (command: Vec<String>)
    ensures
        text::views(command@) == quiet_command(shell),
{
    sleep_in_shell(shell)
}

/// The command of a window that stays silent while timers run.
pub fn quiet_source_timer_window_command(shell: QuietShell) -> (command: Vec<String>)
    ensures
        text::views(command@) == quiet_command(shell),
{
    sleep_in_shell(shell)
}

/// A silent command runs the shell of its system, which does nothing but wait.
pub proof fn a_silent_command_waits_in_its_shell(
    shell: QuietShell,
    overlay: Vec<String>,
    window: Vec<String>,
)
    requires
        call_ensures(quiet_overlay_command, (shell,), overlay),
        call_ensures(quiet_source_timer_window_command, (shell,), window),
    ensures
        text::views(overlay@) == text::views(window@),
        shell is Unix ==> text::views(overlay@) == seq!["/bin/sh"@, "-c"@, "sleep 60"@],
        shell matches QuietShell::Windows { cmd } ==> text::views(overlay@) == seq![
            cmd@,
            "/d"@,
            "/q"@,
            "/c"@,
            "ping -n 120 127.0.0.1 >NUL"@,
        ],
{
}

} // verus!
