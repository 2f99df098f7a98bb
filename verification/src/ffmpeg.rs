//! Installing ffmpeg through the system's package managers: which managers
//! are tried on each system, in which order, and what the user is told.
//! The commands themselves are run by the caller, which reports each
//! outcome back and is told what to do next.

use vstd::prelude::*;
use crate::text::{strings_of, strings_view, strs_view};

verus! {

/// The operating system the application runs on.
#[derive(Clone, Copy, PartialEq, Eq, Structural, Debug)]
pub enum TargetOs {
    Windows,
    Linux,
    Other,
}

/// How many package managers are tried on `os`.
pub open spec fn manager_count(os: TargetOs) -> nat {
    match os {
        TargetOs::Windows => 2,
        TargetOs::Linux => 3,
        TargetOs::Other => 0,
    }
}

/// Name of package manager `i` on `os`; it is also the program probed with
/// `--version` to see whether the manager is there.
pub open spec fn manager_tool(os: TargetOs, i: int) -> Seq<char> {
    match os {
        TargetOs::Windows => if i == 0 { "winget"@ } else { "choco"@ },
        _ => if i == 0 { "apt"@ } else if i == 1 { "dnf"@ } else { "pacman"@ },
    }
}

/// The program that installs ffmpeg with manager `i` (through `pkexec`
/// on Linux, to get root).
pub open spec fn manager_program(os: TargetOs, i: int) -> Seq<char> {
    match os {
        TargetOs::Windows => manager_tool(os, i),
        _ => "pkexec"@,
    }
}

/// The arguments of that program.
pub open spec fn manager_args(os: TargetOs, i: int) -> Seq<Seq<char>> {
    match os {
        TargetOs::Windows => if i == 0 {
            seq!["install"@, "-e"@, "--id"@, "Gyan.FFmpeg"@, "--silent"@]
        } else {
            seq!["install"@, "ffmpeg"@, "-y"@]
        },
        _ => if i == 0 {
            seq!["apt"@, "install"@, "-y"@, "ffmpeg"@]
        } else if i == 1 {
            seq!["dnf"@, "install"@, "-y"@, "ffmpeg"@]
        } else {
            seq!["pacman"@, "-S"@, "--noconfirm"@, "ffmpeg"@]
        },
    }
}

/// What the user is told after manager `i` installed ffmpeg.
pub open spec fn manager_done(os: TargetOs, i: int) -> Seq<char> {
    match os {
        TargetOs::Windows => if i == 0 {
            "FFmpeg successfully installed via winget. Please restart the application."@
        } else {
            "FFmpeg successfully installed via Chocolatey. Please restart the application."@
        },
        _ => if i == 0 {
            "FFmpeg successfully installed via apt."@
        } else if i == 1 {
            "FFmpeg successfully installed via dnf."@
        } else {
            "FFmpeg successfully installed via pacman."@
        },
    }
}

/// What the user is told when no manager installed ffmpeg.
pub open spec fn none_worked(os: TargetOs) -> Seq<char> {
    match os {
        TargetOs::Windows => "No package manager found. Please install FFmpeg manually from https://ffmpeg.org/download.html"@,
        TargetOs::Linux => "No supported package manager found (apt/dnf/pacman). Please install FFmpeg manually."@,
        TargetOs::Other => "Automatic FFmpeg installation not supported on this platform."@,
    }
}

/// A package manager to try.
pub struct PackageManager {
    /// Its name, probed with `--version`.
    pub tool: &'static str,
    /// The program that installs ffmpeg.
    pub program: &'static str,
    /// Its arguments.
    pub args: Vec<String>,
    /// The message after a successful install.
    pub done: &'static str,
}

/// Package manager `i` of `os`.
pub fn ffmpeg_manager(os: TargetOs, i: usize) -> (m: PackageManager)
    requires
        i < manager_count(os),
    ensures
        m.tool@ == manager_tool(os, i as int),
        m.program@ == manager_program(os, i as int),
        strings_view(m.args@) == manager_args(os, i as int),
        m.done@ == manager_done(os, i as int),
{
    let mut parts: Vec<&str> = Vec::new();
    let (tool, program, done): (&'static str, &'static str, &'static str);
    match os {
        TargetOs::Windows => {
            if i == 0 {
                tool = "winget";
                done = "FFmpeg successfully installed via winget. Please restart the application.";
                parts.push("install");
                parts.push("-e");
                parts.push("--id");
                parts.push("Gyan.FFmpeg");
                parts.push("--silent");
            } else {
                tool = "choco";
                done = "FFmpeg successfully installed via Chocolatey. Please restart the application.";
                parts.push("install");
                parts.push("ffmpeg");
                parts.push("-y");
            }
            program = tool;
        },
        _ => {
            program = "pkexec";
            if i == 0 {
                tool = "apt";
                done = "FFmpeg successfully installed via apt.";
            } else if i == 1 {
                tool = "dnf";
                done = "FFmpeg successfully installed via dnf.";
            } else {
                tool = "pacman";
                done = "FFmpeg successfully installed via pacman.";
            }
            parts.push(tool);
            if i == 2 {
                parts.push("-S");
                parts.push("--noconfirm");
            } else {
                parts.push("install");
                parts.push("-y");
            }
            parts.push("ffmpeg");
        },
    }
    let args = strings_of(&parts);
    proof {
        assert(strs_view(parts@) =~= manager_args(os, i as int));
    }
    PackageManager { tool, program, args, done }
}

/// What the caller does next.
pub enum FfmpegAction {
    /// Run `<tool> --version` of manager `i` and report whether it started.
    Probe(usize),
    /// Run the install command of manager `i` and report how it ended.
    Install(usize),
    /// Stop: the message for the user, or the error.
    Finish(Result<String, String>),
}

/// How the last command ended.
pub enum FfmpegEvent {
    /// The probe could (`true`) or could not be started.
    Probed(bool),
    /// The install command ran and succeeded (`Ok(true)`) or failed
    /// (`Ok(false)`), or could not be started (`Err` with the reason).
    Installed(Result<bool, String>),
}

/// How many commands can still follow `a`: each step moves to a later
/// manager or from a probe to its install, so an install runs at most two
/// commands per manager and then finishes.
pub open spec fn steps_left(os: TargetOs, a: FfmpegAction) -> int {
    match a {
        FfmpegAction::Probe(i) => 2 * (manager_count(os) - i),
        FfmpegAction::Install(i) => 2 * (manager_count(os) - i) - 1,
        FfmpegAction::Finish(_) => 0,
    }
}

/// The action after manager `i` gave no result: probe the next manager, or
/// give up.
pub open spec fn advance_is(os: TargetOs, i: int, a: FfmpegAction) -> bool {
    if i + 1 < manager_count(os) {
        a == FfmpegAction::Probe((i + 1) as usize)
    } else {
        a matches FfmpegAction::Finish(Err(e)) && e@ == none_worked(os)
    }
}

fn advance(os: TargetOs, i: usize) -> (a: FfmpegAction)
    requires
        i < manager_count(os),
    ensures
        advance_is(os, i as int, a),
{
    let count: usize = match os {
        TargetOs::Windows => 2,
        TargetOs::Linux => 3,
        TargetOs::Other => 0,
    };
    if i + 1 < count {
        FfmpegAction::Probe(i + 1)
    } else {
        FfmpegAction::Finish(Err(String::from_str(match os {
            TargetOs::Windows => "No package manager found. Please install FFmpeg manually from https://ffmpeg.org/download.html",
            TargetOs::Linux => "No supported package manager found (apt/dnf/pacman). Please install FFmpeg manually.",
            TargetOs::Other => "Automatic FFmpeg installation not supported on this platform.",
        })))
    }
}

/// The first action of an ffmpeg install: probe the first manager, or,
/// where no manager is known, give up.
pub fn ffmpeg_install_start(os: TargetOs) -> (a: FfmpegAction)
    ensures
        if manager_count(os) > 0 {
            a == FfmpegAction::Probe(0)
        } else {
            a matches FfmpegAction::Finish(Err(e)) && e@ == none_worked(os)
        },
        steps_left(os, a) == 2 * manager_count(os),
{
    match os {
        TargetOs::Other => FfmpegAction::Finish(Err(String::from_str("Automatic FFmpeg installation not supported on this platform."))),
        _ => FfmpegAction::Probe(0),
    }
}

/// The action after `last` (a probe or install of manager `i`) ended with
/// `event`: a manager that is there is asked to install; one that is not,
/// or whose install failed, makes way for the next; an install that could
/// not be started ends with its error, a successful one with the manager's
/// message.
pub fn ffmpeg_install_next(os: TargetOs, last: &FfmpegAction, event: FfmpegEvent) -> (a: FfmpegAction)
    requires
        match *last {
            FfmpegAction::Probe(i) => i < manager_count(os) && event is Probed,
            FfmpegAction::Install(i) => i < manager_count(os) && event is Installed,
            FfmpegAction::Finish(_) => false,
        },
    ensures
        match (*last, event) {
            (FfmpegAction::Probe(i), FfmpegEvent::Probed(true)) => a == FfmpegAction::Install(i),
            (FfmpegAction::Probe(i), FfmpegEvent::Probed(false)) => advance_is(os, i as int, a),
            (FfmpegAction::Install(i), FfmpegEvent::Installed(Ok(true))) =>
                a matches FfmpegAction::Finish(Ok(m)) && m@ == manager_done(os, i as int),
            (FfmpegAction::Install(i), FfmpegEvent::Installed(Ok(false))) => advance_is(os, i as int, a),
            (FfmpegAction::Install(i), FfmpegEvent::Installed(Err(e))) =>
                a matches FfmpegAction::Finish(Err(m)) && m@ == "Failed to execute "@ + manager_tool(os, i as int) + ": "@ + e@,
            _ => false,
        },
        0 <= steps_left(os, a) < steps_left(os, *last),
{
    match last {
        FfmpegAction::Probe(i) => {
            let i = *i;
            match event {
                FfmpegEvent::Probed(true) => FfmpegAction::Install(i),
                _ => advance(os, i),
            }
        },
        FfmpegAction::Install(i) => {
            let i = *i;
            match event {
                FfmpegEvent::Installed(Ok(true)) => {
                    let m = ffmpeg_manager(os, i);
                    FfmpegAction::Finish(Ok(String::from_str(m.done)))
                },
                FfmpegEvent::Installed(Err(e)) => {
                    let m = ffmpeg_manager(os, i);
                    let mut msg = String::from_str("Failed to execute ");
                    msg.append(m.tool);
                    msg.append(": ");
                    msg.append(e.as_str());
                    FfmpegAction::Finish(Err(msg))
                },
                _ => advance(os, i),
            }
        },
        FfmpegAction::Finish(_) => FfmpegAction::Finish(Err(String::new())),
    }
}

/// The managers tried, in order: winget then Chocolatey on Windows; apt,
/// dnf, then pacman on Linux; none elsewhere.
pub proof fn lemma_managers_in_order()
    ensures
        Seq::new(manager_count(TargetOs::Windows), |i: int| manager_tool(TargetOs::Windows, i)) == seq!["winget"@, "choco"@],
        Seq::new(manager_count(TargetOs::Linux), |i: int| manager_tool(TargetOs::Linux, i)) == seq!["apt"@, "dnf"@, "pacman"@],
        manager_count(TargetOs::Other) == 0,
{
    assert(Seq::new(manager_count(TargetOs::Windows), |i: int| manager_tool(TargetOs::Windows, i)) =~= seq!["winget"@, "choco"@]);
    assert(Seq::new(manager_count(TargetOs::Linux), |i: int| manager_tool(TargetOs::Linux, i)) =~= seq!["apt"@, "dnf"@, "pacman"@]);
}

/// After manager `i` gave no result (not there, or its install failed), the
/// next manager is probed: on Linux apt is followed by dnf and dnf by
/// pacman, on Windows winget by Chocolatey. The message that no manager
/// worked comes only after the last one (pacman, Chocolatey) failed too.
pub proof fn lemma_next_manager(os: TargetOs, i: int, a: FfmpegAction)
    requires
        0 <= i < manager_count(os),
        advance_is(os, i, a),
    ensures
        os == TargetOs::Linux && i <= 1 ==> a == FfmpegAction::Probe((i + 1) as usize),
        os == TargetOs::Windows && i == 0 ==> a == FfmpegAction::Probe(1),
        (os == TargetOs::Linux && i == 2) || (os == TargetOs::Windows && i == 1) ==> (a matches FfmpegAction::Finish(Err(e))
            && e@ == none_worked(os)),
        a matches FfmpegAction::Finish(_) ==> (os == TargetOs::Linux && i == 2) || (os == TargetOs::Windows && i == 1),
{
}

} // verus!
