use launcher_catalog::launch::{launch_action, Program};

fn resolved(id: &str) -> (Program, Vec<String>) {
    let command = launch_action(id);
    (command.program, command.args)
}

fn args(list: &[&str]) -> Vec<String> {
    list.iter().map(|s| s.to_string()).collect()
}

#[test]
fn fixed_actions_open_in_explorer() {
    assert_eq!(resolved("update"), (Program::Explorer, args(&["ms-settings:windowsupdate"])));
    assert_eq!(resolved("programs"), (Program::Explorer, args(&["shell:AppsFolder"])));
    assert_eq!(resolved("documents"), (Program::Explorer, args(&[])));
    assert_eq!(resolved("settings"), (Program::Explorer, args(&["ms-settings:"])));
    assert_eq!(resolved("find"), (Program::Explorer, args(&["search-ms:"])));
    assert_eq!(resolved("help"), (Program::Explorer, args(&["ms-contact-support:"])));
}

#[test]
fn run_and_power_actions() {
    assert_eq!(
        resolved("run"),
        (
            Program::PowerShell,
            args(&["-c", "(New-Object -ComObject Shell.Application).FileRun()"])
        )
    );
    assert_eq!(resolved("logoff"), (Program::Shutdown, args(&["/l"])));
    assert_eq!(
        resolved("shutdown"),
        (
            Program::PowerShell,
            args(&["-c", "(New-Object -ComObject Shell.Application).ShutdownWindows()"])
        )
    );
}

#[test]
fn anything_else_is_opened_as_a_path() {
    let path = "C:\\ProgramData\\Microsoft\\Windows\\Start Menu\\Programs\\Tools\\App1.lnk";
    assert_eq!(resolved(path), (Program::Explorer, args(&[path])));
    assert_eq!(resolved("Update"), (Program::Explorer, args(&["Update"])));
    assert_eq!(resolved(""), (Program::Explorer, args(&[""])));
    assert_eq!(resolved("run "), (Program::Explorer, args(&["run "])));
}

#[test]
fn program_names() {
    assert_eq!(Program::Explorer.name(), "explorer");
    assert_eq!(Program::PowerShell.name(), "powershell");
    assert_eq!(Program::Shutdown.name(), "shutdown");
}
