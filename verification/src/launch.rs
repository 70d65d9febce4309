use vstd::prelude::*;
use crate::text::same_text;

verus! {

/// The program that carries out an action.
#[derive(Clone, Copy, Debug, PartialEq, Eq)]
pub enum Program {
    Explorer,
    PowerShell,
    Shutdown,
}

/// A command to start: a program and its arguments.
#[derive(Clone, Debug, PartialEq, Eq)]
pub struct LaunchCommand {
    pub program: Program,
    pub args: Vec<String>,
}

/// The characters of each argument, in order.
pub open spec fn arg_views(args: Seq<String>) -> Seq<Seq<char>> {
    args.map_values(|arg: String| arg@)
}

/// The command behind an action identifier. Nine identifiers name fixed
/// system actions; anything else is taken as a path and opened in the shell.
pub open spec fn command_for(id: Seq<char>) -> (Program, Seq<Seq<char>>) {
    if id == "update"@ {
        (Program::Explorer, seq!["ms-settings:windowsupdate"@])
    } else if id == "programs"@ {
        (Program::Explorer, seq!["shell:AppsFolder"@])
    } else if id == "documents"@ {
        (Program::Explorer, Seq::empty())
    } else if id == "settings"@ {
        (Program::Explorer, seq!["ms-settings:"@])
    } else if id == "find"@ {
        (Program::Explorer, seq!["search-ms:"@])
    } else if id == "help"@ {
        (Program::Explorer, seq!["ms-contact-support:"@])
    } else if id == "run"@ {
        (Program::PowerShell, seq!["-c"@, "(New-Object -ComObject Shell.Application).FileRun()"@])
    } else if id == "logoff"@ {
        (Program::Shutdown, seq!["/l"@])
    } else if id == "shutdown"@ {
        (
            Program::PowerShell,
            seq!["-c"@, "(New-Object -ComObject Shell.Application).ShutdownWindows()"@],
        )
    } else {
        (Program::Explorer, seq![id])
    }
}

impl Program {
    /// The name under which the program is started.
    pub fn name(&self) -> (r: &'static str)
        ensures
            r@ == match *self {
                Program::Explorer => "explorer"@,
                Program::PowerShell => "powershell"@,
                Program::Shutdown => "shutdown"@,
            },
    {
        match self {
            Program::Explorer => "explorer",
            Program::PowerShell => "powershell",
            Program::Shutdown => "shutdown",
        }
    }
}

fn command(program: Program, first: Option<&str>, second: Option<&str>) -> (r: LaunchCommand)
    requires
        second is Some ==> first is Some,
    ensures
        r.program == program,
        arg_views(r.args@) == match (first, second) {
            (Some(a), Some(b)) => seq![a@, b@],
            (Some(a), None) => seq![a@],
            _ => Seq::<Seq<char>>::empty(),
        },
{
    let mut args: Vec<String> = Vec::new();
    if let Some(a) = first {
        args.push(a.to_owned());
    }
    if let Some(b) = second {
        args.push(b.to_owned());
    }
    let r = LaunchCommand { program, args };
    assert(arg_views(r.args@) =~= match (first, second) {
        (Some(a), Some(b)) => seq![a@, b@],
        (Some(a), None) => seq![a@],
        _ => Seq::<Seq<char>>::empty(),
    });
    r
}

/// Resolves an action identifier to the command that carries it out.
pub fn launch_action(id: &str) -> (r: LaunchCommand)
    ensures
        (r.program, arg_views(r.args@)) == command_for(id@),
{
    if same_text(id, "update") {
        command(Program::Explorer, Some("ms-settings:windowsupdate"), None)
    } else if same_text(id, "programs") {
        command(Program::Explorer, Some("shell:AppsFolder"), None)
    } else if same_text(id, "documents") {
        command(Program::Explorer, None, None)
    } else if same_text(id, "settings") {
        command(Program::Explorer, Some("ms-settings:"), None)
    } else if same_text(id, "find") {
        command(Program::Explorer, Some("search-ms:"), None)
    } else if same_text(id, "help") {
        command(Program::Explorer, Some("ms-contact-support:"), None)
    } else if same_text(id, "run") {
        command(
            Program::PowerShell,
            Some("-c"),
            Some("(New-Object -ComObject Shell.Application).FileRun()"),
        )
    } else if same_text(id, "logoff") {
        command(Program::Shutdown, Some("/l"), None)
    } else if same_text(id, "shutdown") {
        command(
            Program::PowerShell,
            Some("-c"),
            Some("(New-Object -ComObject Shell.Application).ShutdownWindows()"),
        )
    } else {
        command(Program::Explorer, Some(id), None)
    }
}

} // verus!
