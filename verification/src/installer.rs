//! The installer's own logic: the files it writes for the desktop and for
//! uninstalling, the values it registers, reading back where the
//! application was installed, and waiting for a running copy to exit
//! before an update.

use vstd::prelude::*;
use crate::text::chars_of;

verus! {

/// The application's display name.
pub open spec fn app_name() -> Seq<char> {
    "ASCII Art Studio"@
}

/// The registry key (under HKCU) the uninstall entry is written to.
pub open spec fn uninstall_key() -> Seq<char> {
    "Software\\Microsoft\\Windows\\CurrentVersion\\Uninstall\\ASCIIArtStudio"@
}

/// The file name of the menu entry on Linux.
pub open spec fn desktop_file_name() -> Seq<char> {
    "ascii-art-studio.desktop"@
}

/// The `.desktop` menu entry that starts `exe` with the icon `icon`.
pub open spec fn desktop_entry_text(exe: Seq<char>, icon: Seq<char>) -> Seq<char> {
    "[Desktop Entry]\nType=Application\nName=ASCII Art Studio\nComment=ASCII art from images, video and webcam\nExec=\""@
        + exe + "\"\nIcon="@ + icon + "\nTerminal=false\nCategories=Graphics;AudioVideo;\n"@
}

/// Writes the menu entry (see `desktop_entry_text`).
pub fn desktop_entry(exe: &str, icon: &str) -> (s: String)
    ensures
        s@ == desktop_entry_text(exe@, icon@),
{
    let mut s = String::from_str("[Desktop Entry]\nType=Application\nName=ASCII Art Studio\nComment=ASCII art from images, video and webcam\nExec=\"");
    s.append(exe);
    s.append("\"\nIcon=");
    s.append(icon);
    s.append("\nTerminal=false\nCategories=Graphics;AudioVideo;\n");
    s
}

/// The shell script that removes the menu entries in `apps_dir` and on
/// the desktop, and the installation folder `dir`.
pub open spec fn uninstall_sh_text(apps_dir: Seq<char>, dir: Seq<char>) -> Seq<char> {
    "#!/bin/sh\nrm -f \""@ + apps_dir + "/ascii-art-studio.desktop\"\nrm -f \"$HOME/Desktop/ascii-art-studio.desktop\" \"$(xdg-user-dir DESKTOP 2>/dev/null)/ascii-art-studio.desktop\" 2>/dev/null\nrm -rf \""@
        + dir + "\"\n"@
}

/// Writes the Linux uninstall script (see `uninstall_sh_text`).
pub fn uninstall_sh(apps_dir: &str, dir: &str) -> (s: String)
    ensures
        s@ == uninstall_sh_text(apps_dir@, dir@),
{
    let mut s = String::from_str("#!/bin/sh\nrm -f \"");
    s.append(apps_dir);
    s.append("/ascii-art-studio.desktop\"\nrm -f \"$HOME/Desktop/ascii-art-studio.desktop\" \"$(xdg-user-dir DESKTOP 2>/dev/null)/ascii-art-studio.desktop\" 2>/dev/null\nrm -rf \"");
    s.append(dir);
    s.append("\"\n");
    s
}

/// `s` with every backslash doubled.
pub open spec fn doubled_backslashes(s: Seq<char>) -> Seq<char>
    decreases s.len(),
{
    if s.len() == 0 {
        Seq::empty()
    } else {
        let rest = doubled_backslashes(s.drop_last());
        if s.last() == '\\' {
            rest + seq!['\\', '\\']
        } else {
            rest.push(s.last())
        }
    }
}

/// Doubles every backslash of `s` (`str::replace('\\', "\\\\")`).
pub fn double_backslashes(s: &str) -> (r: String)
    ensures
        r@ == doubled_backslashes(s@),
{
    let cs = chars_of(s);
    let mut r = String::new();
    for i in 0..cs.len()
        invariant
            r@ == doubled_backslashes(cs@.take(i as int)),
    {
        proof {
            assert(cs@.take(i + 1).drop_last() =~= cs@.take(i as int));
        }
        if cs[i] == '\\' {
            r.push('\\');
            r.push('\\');
            proof {
                assert(r@ =~= doubled_backslashes(cs@.take(i + 1)));
            }
        } else {
            r.push(cs[i]);
        }
    }
    proof {
        assert(cs@.take(cs@.len() as int) =~= cs@);
    }
    r
}

/// The batch script that removes the uninstall entry, the shortcuts and
/// the installation folder `dir`. The registry key is written with its
/// backslashes doubled.
pub open spec fn uninstall_cmd_text(dir: Seq<char>) -> Seq<char> {
    "@echo off\r\ntimeout /t 1 /nobreak >nul\r\nreg delete \"HKCU\\"@ + doubled_backslashes(uninstall_key())
        + "\" /f >nul 2>&1\r\ndel \"%USERPROFILE%\\Desktop\\ASCII Art Studio.lnk\" >nul 2>&1\r\ndel \"%APPDATA%\\Microsoft\\Windows\\Start Menu\\Programs\\ASCII Art Studio.lnk\" >nul 2>&1\r\nrmdir /s /q \""@
        + dir + "\" >nul 2>&1\r\n"@
}

/// Writes the Windows uninstall script (see `uninstall_cmd_text`).
pub fn uninstall_cmd(dir: &str) -> (s: String)
    ensures
        s@ == uninstall_cmd_text(dir@),
{
    let mut s = String::from_str("@echo off\r\ntimeout /t 1 /nobreak >nul\r\nreg delete \"HKCU\\");
    let key = double_backslashes("Software\\Microsoft\\Windows\\CurrentVersion\\Uninstall\\ASCIIArtStudio");
    s.append(key.as_str());
    s.append("\" /f >nul 2>&1\r\ndel \"%USERPROFILE%\\Desktop\\ASCII Art Studio.lnk\" >nul 2>&1\r\ndel \"%APPDATA%\\Microsoft\\Windows\\Start Menu\\Programs\\ASCII Art Studio.lnk\" >nul 2>&1\r\nrmdir /s /q \"");
    s.append(dir);
    s.append("\" >nul 2>&1\r\n");
    s
}

/// The string values of the uninstall entry, name and value, in the order
/// they are written: `exe` the installed executable, `dir` the
/// installation folder, `uninstaller` the path of the uninstall script.
pub open spec fn registry_values(exe: Seq<char>, dir: Seq<char>, uninstaller: Seq<char>) -> Seq<(Seq<char>, Seq<char>)> {
    seq![
        ("DisplayName"@, app_name()),
        ("DisplayVersion"@, "0.1.0"@),
        ("Publisher"@, app_name()),
        ("DisplayIcon"@, exe),
        ("InstallLocation"@, dir),
        ("UninstallString"@, "cmd /c \""@ + uninstaller + "\""@),
    ]
}

/// The texts of name-value pairs.
pub open spec fn pairs_view(v: Seq<(String, String)>) -> Seq<(Seq<char>, Seq<char>)> {
    Seq::new(v.len(), |i: int| (v[i].0@, v[i].1@))
}

/// Lists the string values of the uninstall entry (see
/// `registry_values`); the entry also gets `NoModify` and `NoRepair` set to
/// the DWORD 1.
pub fn uninstall_registry_values(exe: &str, dir: &str, uninstaller: &str) -> (v: Vec<(String, String)>)
    ensures
        pairs_view(v@) == registry_values(exe@, dir@, uninstaller@),
{
    let mut v: Vec<(String, String)> = Vec::new();
    v.push((String::from_str("DisplayName"), String::from_str("ASCII Art Studio")));
    v.push((String::from_str("DisplayVersion"), String::from_str("0.1.0")));
    v.push((String::from_str("Publisher"), String::from_str("ASCII Art Studio")));
    v.push((String::from_str("DisplayIcon"), String::from_str(exe)));
    v.push((String::from_str("InstallLocation"), String::from_str(dir)));
    let mut cmd = String::from_str("cmd /c \"");
    cmd.append(uninstaller);
    cmd.append("\"");
    v.push((String::from_str("UninstallString"), cmd));
    proof {
        assert(pairs_view(v@) =~= registry_values(exe@, dir@, uninstaller@));
    }
    v
}

// ---------------------------------------------------------------------------
// Unpacking the payload
// ---------------------------------------------------------------------------

/// What is done with one entry of the payload archive.
#[derive(Clone, Copy, PartialEq, Eq, Structural, Debug)]
pub enum EntryAction {
    /// Its name would leave the installation folder: skipped, and no
    /// progress is reported for it.
    Skip,
    /// A folder: created.
    MakeDir,
    /// A file: written, and counted.
    WriteFile,
}

/// The action for an entry: `safe_name` tells whether the archive gave it
/// a name that stays inside the target folder.
pub fn entry_action(safe_name: bool, is_dir: bool) -> (a: EntryAction)
    ensures
        a == (if !safe_name {
            EntryAction::Skip
        } else if is_dir {
            EntryAction::MakeDir
        } else {
            EntryAction::WriteFile
        }),
{
    if !safe_name {
        EntryAction::Skip
    } else if is_dir {
        EntryAction::MakeDir
    } else {
        EntryAction::WriteFile
    }
}

/// The number of files written after an entry was handled with `action`
/// (`written` before it), and whether progress is reported for it.
pub fn after_entry(written: usize, action: EntryAction) -> (r: (usize, bool))
    requires
        written < usize::MAX,
    ensures
        r.0 == (if action == EntryAction::WriteFile { written + 1 } else { written as int }),
        r.1 == (action != EntryAction::Skip),
{
    match action {
        EntryAction::Skip => (written, false),
        EntryAction::MakeDir => (written, true),
        EntryAction::WriteFile => (written + 1, true),
    }
}

// ---------------------------------------------------------------------------
// Where the application is installed
// ---------------------------------------------------------------------------

/// The characters UTF-16 code units decode to, with every unit that is
/// not part of a valid surrogate pair (an unpaired high or low surrogate)
/// replaced by U+FFFD.
pub open spec fn utf16_decoded(u: Seq<u16>) -> Seq<char>
    decreases u.len(),
{
    if u.len() == 0 {
        Seq::empty()
    } else if u[0] < 0xd800 || u[0] > 0xdfff {
        seq![u[0] as char] + utf16_decoded(u.drop_first())
    } else if u[0] <= 0xdbff && u.len() >= 2 && 0xdc00 <= u[1] <= 0xdfff {
        seq![(0x10000 + (u[0] - 0xd800) * 0x400 + (u[1] - 0xdc00)) as char]
            + utf16_decoded(u.subrange(2, u.len() as int))
    } else {
        seq!['\u{fffd}'] + utf16_decoded(u.drop_first())
    }
}

/// Calls `String::from_utf16_lossy`, which decodes UTF-16 and replaces
/// invalid data (each unpaired surrogate) with U+FFFD, as
/// `char::decode_utf16` reports it, one error per unpaired unit.
#[verifier::external_body]
fn utf16_to_string(units: &[u16]) -> (s: String)
    ensures
        s@ == utf16_decoded(units@),
{
    String::from_utf16_lossy(units)
}

/// Number of UTF-16 units of a registry string of `size` bytes, its
/// terminating NUL left out.
pub open spec fn reg_string_units(size: u32) -> int {
    if size / 2 >= 1 {
        size / 2 - 1
    } else {
        0
    }
}

/// The installation folder recorded in the uninstall entry
/// (`InstallLocation`): `found` tells that the value could be read and is
/// a string, `buf` holds it as UTF-16 and `size` is its size in bytes as
/// the registry reported it, terminating NUL included. An empty path counts
/// as none.
pub fn installed_dir(found: bool, buf: &[u16], size: u32) -> (r: Option<String>)
    requires
        found ==> reg_string_units(size) <= buf@.len(),
    ensures
        match r {
            Some(p) => found && p@ == utf16_decoded(buf@.take(reg_string_units(size))) && p@.len() > 0,
            None => !found || utf16_decoded(buf@.take(reg_string_units(size))).len() == 0,
        },
{
    if !found {
        return None;
    }
    let half = size / 2;
    let len: usize = if half >= 1 { (half - 1) as usize } else { 0 };
    let units = &buf[0..len];
    proof {
        assert(units@ =~= buf@.take(reg_string_units(size)));
    }
    let s = utf16_to_string(units);
    if s.as_str().unicode_len() == 0 {
        None
    } else {
        Some(s)
    }
}

// ---------------------------------------------------------------------------
// Whether the application is running
// ---------------------------------------------------------------------------

/// `needle` occurs in `hay`.
pub open spec fn contains_text(hay: Seq<char>, needle: Seq<char>) -> bool {
    exists|i: int| 0 <= i && i + needle.len() <= hay.len() && #[trigger] hay.subrange(i, i + needle.len()) == needle
}

fn occurs_at(hay: &Vec<char>, needle: &Vec<char>, i: usize) -> (b: bool)
    requires
        i + needle@.len() <= hay@.len(),
    ensures
        b == (hay@.subrange(i as int, i + needle@.len()) == needle@),
{
    let n = needle.len();
    let hl = hay.len();
    for j in 0..n
        invariant
            n == needle@.len(),
            hl == hay@.len(),
            i + n <= hay@.len(),
            forall|k: int| 0 <= k < j ==> hay@[i + k] == needle@[k],
    {
        if hay[i + j] != needle[j] {
            assert(hay@.subrange(i as int, i + n)[j as int] != needle@[j as int]);
            return false;
        }
    }
    assert(hay@.subrange(i as int, i + n) =~= needle@);
    true
}

/// The filter argument that makes `tasklist` list only `exe`.
pub fn tasklist_filter(exe: &str) -> (s: String)
    ensures
        s@ == "IMAGENAME eq "@ + exe@,
{
    let mut s = String::from_str("IMAGENAME eq ");
    s.append(exe);
    s
}

/// Whether `exe` is running, from what `tasklist` printed (`None` when it
/// could not be run): it is when the listing mentions `exe`.
pub fn is_process_running(tasklist_output: Option<String>, exe: &str) -> (r: bool)
    ensures
        r == (tasklist_output matches Some(out) && contains_text(out@, exe@)),
{
    let out = match tasklist_output {
        Some(o) => o,
        None => return false,
    };
    let hay = chars_of(out.as_str());
    let needle = chars_of(exe);
    let hl = hay.len();
    let nl = needle.len();
    if nl == 0 {
        proof {
            assert(out@.subrange(0, 0 + exe@.len() as int) =~= exe@);
            assert(contains_text(out@, exe@));
        }
        return true;
    }
    for i in 0..hl
        invariant
            tasklist_output matches Some(o) && o@ == out@,
            hay@ == out@,
            needle@ == exe@,
            hl == hay@.len(),
            nl == needle@.len(),
            nl > 0,
            forall|k: int| 0 <= k < i && k + nl <= hl ==> #[trigger] hay@.subrange(k, k + nl) != needle@,
    {
        if nl <= hl - i && occurs_at(&hay, &needle, i) {
            proof {
                assert(out@.subrange(i as int, i + exe@.len()) == exe@);
                assert(contains_text(out@, exe@));
            }
            return true;
        }
    }
    proof {
        assert forall|k: int| 0 <= k && k + exe@.len() <= out@.len() implies #[trigger] out@.subrange(k, k + exe@.len()) != exe@ by {
            assert(k < hl);
        }
    }
    false
}

/// Whether `pgrep` found the process: it printed anything at all.
pub fn pgrep_found(stdout: &[u8]) -> (r: bool)
    ensures
        r == (stdout@.len() > 0),
{
    stdout.len() > 0
}

/// What the update does while waiting for the running application to exit.
#[derive(Clone, Copy, PartialEq, Eq, Structural, Debug)]
pub enum ExitWait {
    /// Wait half a second, then check again.
    Sleep,
    /// Wait half a second, then make the last check.
    SleepThenLastCheck,
    /// Make the last check now.
    LastCheck,
    /// Kill it, wait 800 ms, then go on.
    Kill,
    /// Go on with the update.
    Proceed,
}

/// How many times the update checks, half a second apart, before it
/// kills the application.
pub const EXIT_CHECKS: u32 = 40;

/// The next step after check number `checks` (counted from 1) of the
/// waiting loop found the application `running` or not: a finished
/// application ends the loop at once; a running one is waited for half a
/// second, and after the `EXIT_CHECKS`-th check the loop ends. After the
/// loop one last check decides whether it is killed.
pub fn exit_wait_next(checks: u32, running: bool) -> (w: ExitWait)
    requires
        1 <= checks <= EXIT_CHECKS,
    ensures
        w == (if !running {
            ExitWait::LastCheck
        } else if checks < EXIT_CHECKS {
            ExitWait::Sleep
        } else {
            ExitWait::SleepThenLastCheck
        }),
{
    if !running {
        ExitWait::LastCheck
    } else if checks < EXIT_CHECKS {
        ExitWait::Sleep
    } else {
        ExitWait::SleepThenLastCheck
    }
}

/// After the last check: kill the application if it still runs.
pub fn exit_wait_last(running: bool) -> (w: ExitWait)
    ensures
        w == (if running { ExitWait::Kill } else { ExitWait::Proceed }),
{
    if running {
        ExitWait::Kill
    } else {
        ExitWait::Proceed
    }
}

} // verus!
