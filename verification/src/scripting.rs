//! The bridge to the Axium script engine, apart from the engine itself:
//! capturing what scripts print, where the engine library is looked for,
//! turning the engine's raw diagnostics into reports, deciding what a run
//! returns, and unpacking the pixel arrays scripts hand to the converter.

use vstd::prelude::*;
use crate::text::{is_whitespace, push_signed_decimal, signed_decimal, char_is_whitespace, chars_of, string_of, strings_of, strings_view};

verus! {

// ---------------------------------------------------------------------------
// Captured console output
// ---------------------------------------------------------------------------

/// What a script has printed since the last reset. The print natives write
/// here instead of the process's stdout, and a run returns the text.
pub struct ConsoleOutput {
    text: String,
}

impl View for ConsoleOutput {
    type V = Seq<char>;

    closed spec fn view(&self) -> Seq<char> {
        self.text@
    }
}

impl ConsoleOutput {
    /// An empty buffer.
    pub fn new() -> (c: ConsoleOutput)
        ensures
            c@ == Seq::<char>::empty(),
    {
        ConsoleOutput { text: String::new() }
    }

    /// Clears the buffer before a run.
    pub fn reset_output(&mut self)
        ensures
            final(self)@ == Seq::<char>::empty(),
    {
        self.text = String::new();
    }

    /// Hands out everything captured and leaves the buffer empty.
    pub fn take_output(&mut self) -> (out: String)
        ensures
            out@ == old(self)@,
            final(self)@ == Seq::<char>::empty(),
    {
        let mut taken = String::new();
        std::mem::swap(&mut taken, &mut self.text);
        taken
    }

    /// Appends `s` to the buffer.
    pub fn push(&mut self, s: &str)
        ensures
            final(self)@ == old(self)@ + s@,
    {
        self.text.append(s);
    }

    /// `Sys.print(String)`: the text as it is.
    pub fn print_str(&mut self, s: &str)
        ensures
            final(self)@ == old(self)@ + s@,
    {
        self.push(s);
    }

    /// `Sys.println(String)`: the text and a newline.
    pub fn println_str(&mut self, s: &str)
        ensures
            final(self)@ == old(self)@ + s@ + seq!['\n'],
    {
        self.push(s);
        self.push("\n");
        proof {
            reveal_strlit("\n");
        }
    }

    /// `Sys.printInt(Integer)` and `Sys.printLong(Long)`: the value in
    /// decimal.
    pub fn print_int(&mut self, v: i64)
        ensures
            final(self)@ == old(self)@ + signed_decimal(v as int),
    {
        push_signed_decimal(&mut self.text, v);
    }

    /// `Sys.printBool(Boolean)`: `true` or `false`.
    pub fn print_bool(&mut self, v: bool)
        ensures
            final(self)@ == old(self)@ + (if v { "true"@ } else { "false"@ }),
    {
        if v {
            self.push("true");
        } else {
            self.push("false");
        }
    }
}

// ---------------------------------------------------------------------------
// Locating the engine library
// ---------------------------------------------------------------------------

/// The bundle's resource directory, recorded once at start-up; later
/// attempts to record another are ignored.
pub struct ResourceDir {
    dir: Option<String>,
}

impl ResourceDir {
    /// Nothing recorded yet.
    pub fn new() -> (r: ResourceDir)
        ensures
            r.get_spec() is None,
    {
        ResourceDir { dir: None }
    }

    /// The recorded directory.
    pub closed spec fn get_spec(&self) -> Option<Seq<char>> {
        match self.dir {
            Some(d) => Some(d@),
            None => None,
        }
    }

    /// Records `p` unless a directory is already recorded.
    pub fn set_resource_dir(&mut self, p: String)
        ensures
            final(self).get_spec() == (match old(self).get_spec() {
                Some(d) => Some(d),
                None => Some(p@),
            }),
    {
        if self.dir.is_none() {
            self.dir = Some(p);
        }
    }

    /// The recorded directory, if any.
    pub fn get(&self) -> (r: Option<String>)
        ensures
            match r {
                Some(d) => self.get_spec() == Some(d@),
                None => self.get_spec() is None,
            },
    {
        match &self.dir {
            Some(d) => Some(d.clone()),
            None => None,
        }
    }
}

/// File name of the engine library on the target system.
pub open spec fn engine_file_name(windows: bool) -> Seq<char> {
    if windows {
        "axium_vm.dll"@
    } else {
        "libaxium_vm.so"@
    }
}

/// The engine library's file name: `axium_vm.dll` on Windows,
/// `libaxium_vm.so` elsewhere.
pub fn lib_filename(windows: bool) -> (s: &'static str)
    ensures
        s@ == engine_file_name(windows),
{
    if windows {
        "axium_vm.dll"
    } else {
        "libaxium_vm.so"
    }
}

/// `s` with whitespace removed from its start.
pub open spec fn trim_start(s: Seq<char>) -> Seq<char>
    decreases s.len(),
{
    if s.len() > 0 && is_whitespace(s[0]) {
        trim_start(s.drop_first())
    } else {
        s
    }
}

/// `s` with whitespace removed from its end.
pub open spec fn trim_end(s: Seq<char>) -> Seq<char>
    decreases s.len(),
{
    if s.len() > 0 && is_whitespace(s.last()) {
        trim_end(s.drop_last())
    } else {
        s
    }
}

/// `s` with whitespace removed from both ends, as `str::trim` does.
pub open spec fn trim(s: Seq<char>) -> Seq<char> {
    trim_end(trim_start(s))
}

proof fn lemma_trim_start_skip(s: Seq<char>, i: int)
    requires
        0 <= i <= s.len(),
        forall|j: int| 0 <= j < i ==> is_whitespace(#[trigger] s[j]),
        i == s.len() || !is_whitespace(s[i]),
    ensures
        trim_start(s) == s.skip(i),
    decreases i,
{
    if i == 0 {
        assert(s.skip(0) =~= s);
    } else {
        assert(is_whitespace(s[0]));
        let t = s.drop_first();
        assert forall|j: int| 0 <= j < i - 1 implies is_whitespace(#[trigger] t[j]) by {
            assert(t[j] == s[j + 1]);
        }
        if i - 1 < t.len() {
            assert(t[i - 1] == s[i]);
        }
        lemma_trim_start_skip(t, i - 1);
        assert(t.skip(i - 1) =~= s.skip(i));
    }
}

proof fn lemma_trim_end_take(s: Seq<char>, k: int)
    requires
        0 <= k <= s.len(),
        forall|j: int| k <= j < s.len() ==> is_whitespace(#[trigger] s[j]),
        k == 0 || !is_whitespace(s[k - 1]),
    ensures
        trim_end(s) == s.take(k),
    decreases s.len() - k,
{
    if k == s.len() {
        assert(s.take(k) =~= s);
    } else {
        assert(is_whitespace(s.last()));
        let t = s.drop_last();
        assert forall|j: int| k <= j < t.len() implies is_whitespace(#[trigger] t[j]) by {
            assert(t[j] == s[j]);
        }
        if k > 0 {
            assert(t[k - 1] == s[k - 1]);
        }
        lemma_trim_end_take(t, k);
        assert(t.take(k) =~= s.take(k));
    }
}

/// The saved library path: the file's text with surrounding whitespace
/// removed, or nothing when that leaves it empty.
pub open spec fn saved_path_of(text: Seq<char>) -> Option<Seq<char>> {
    if trim(text).len() == 0 {
        None
    } else {
        Some(trim(text))
    }
}

/// Reads the library path the user chose by hand from the text of the file
/// it is kept in (see `saved_path_of`).
pub fn saved_lib_path(text: &str) -> (r: Option<String>)
    ensures
        match r {
            Some(p) => saved_path_of(text@) == Some(p@),
            None => saved_path_of(text@) is None,
        },
{
    let cs = chars_of(text);
    let n = cs.len();
    let mut i: usize = 0;
    while i < n && char_is_whitespace(cs[i])
        invariant
            n == cs@.len(),
            i <= n,
            forall|j: int| 0 <= j < i ==> is_whitespace(#[trigger] cs@[j]),
        decreases n - i,
    {
        i += 1;
    }
    proof {
        lemma_trim_start_skip(cs@, i as int);
    }
    let mut k: usize = n;
    while k > i && char_is_whitespace(cs[k - 1])
        invariant
            n == cs@.len(),
            i <= k <= n,
            forall|j: int| k <= j < n ==> is_whitespace(#[trigger] cs@[j]),
        decreases k,
    {
        k -= 1;
    }
    let ghost rest = cs@.skip(i as int);
    proof {
        assert forall|j: int| k - i <= j < rest.len() implies is_whitespace(#[trigger] rest[j]) by {
            assert(rest[j] == cs@[j + i]);
        }
        if k > i {
            assert(rest[k - i - 1] == cs@[k - 1]);
        }
        lemma_trim_end_take(rest, k - i);
    }
    if k == i {
        return None;
    }
    let mut out: Vec<char> = Vec::new();
    for j in i..k
        invariant
            n == cs@.len(),
            i <= k <= n,
            out@ == cs@.subrange(i as int, j as int),
    {
        out.push(cs[j]);
        proof {
            assert(cs@.subrange(i as int, j + 1) =~= cs@.subrange(i as int, j as int).push(cs@[j as int]));
        }
    }
    proof {
        assert(rest.take(k - i) =~= cs@.subrange(i as int, k as int));
    }
    Some(string_of(&out))
}

/// A path as its components, outermost first, as `PathBuf::join` would
/// join them.
pub open spec fn path_view(p: Vec<String>) -> Seq<Seq<char>> {
    strings_view(p@)
}

/// The components of each path.
pub open spec fn paths_view(v: Seq<Vec<String>>) -> Seq<Seq<Seq<char>>> {
    Seq::new(v.len(), |j: int| path_view(v[j]))
}

/// The text of an optional string.
pub open spec fn opt_view(o: Option<String>) -> Option<Seq<char>> {
    match o {
        Some(s) => Some(s@),
        None => None,
    }
}

/// One path for each directory that is known.
pub open spec fn if_known(dir: Option<Seq<char>>, paths: spec_fn(Seq<char>) -> Seq<Seq<Seq<char>>>) -> Seq<Seq<Seq<char>>> {
    match dir {
        Some(d) => paths(d),
        None => Seq::empty(),
    }
}

/// Where the engine library may be, most preferred first: the path the
/// user chose, beside the executable (directly and in `axium/`), in the
/// bundle's resources (in `axium/`, then directly), in the user's
/// configuration folder, and in the source tree's `assets/Axium/bin/<os>`.
pub open spec fn candidates(
    saved: Option<Seq<char>>,
    exe_dir: Option<Seq<char>>,
    resource_dir: Option<Seq<char>>,
    config_dir: Option<Seq<char>>,
    manifest_dir: Option<Seq<char>>,
    windows: bool,
) -> Seq<Seq<Seq<char>>> {
    let name = engine_file_name(windows);
    let os = if windows { "win"@ } else { "linux"@ };
    if_known(saved, |p: Seq<char>| seq![seq![p]])
        + if_known(exe_dir, |d: Seq<char>| seq![seq![d, name], seq![d, "axium"@, name]])
        + if_known(resource_dir, |r: Seq<char>| seq![seq![r, "axium"@, name], seq![r, name]])
        + if_known(config_dir, |c: Seq<char>| seq![seq![c, "ascii-art-studio"@, name]])
        + if_known(manifest_dir, |m: Seq<char>| seq![seq![m, ".."@, "assets"@, "Axium"@, "bin"@, os, name]])
}

/// Lists the places the engine library is looked for, in order of
/// preference (see `candidates`); each place is given by its components.
/// `saved` is the path the user chose, `exe_dir` the executable's folder,
/// `resource_dir` the bundle's resources, `config_dir` the user's
/// configuration folder and `manifest_dir` the source tree of a build.
pub fn candidate_paths(
    saved: Option<String>,
    exe_dir: Option<String>,
    resource_dir: Option<String>,
    config_dir: Option<String>,
    manifest_dir: Option<String>,
    windows: bool,
) -> (v: Vec<Vec<String>>)
    ensures
        paths_view(v@) == candidates(
            opt_view(saved),
            opt_view(exe_dir),
            opt_view(resource_dir),
            opt_view(config_dir),
            opt_view(manifest_dir),
            windows,
        ),
{
    let name = lib_filename(windows);
    let os = if windows { "win" } else { "linux" };
    let mut v: Vec<Vec<String>> = Vec::new();
    let ghost name_v = engine_file_name(windows);
    let ghost os_v = if windows { "win"@ } else { "linux"@ };
    let ghost so = opt_view(saved);
    let ghost eo = opt_view(exe_dir);
    let ghost ro = opt_view(resource_dir);
    let ghost co = opt_view(config_dir);
    let ghost mo = opt_view(manifest_dir);
    let ghost part1 = if_known(so, |p: Seq<char>| seq![seq![p]]);
    let ghost part2 = if_known(eo, |d: Seq<char>| seq![seq![d, name_v], seq![d, "axium"@, name_v]]);
    let ghost part3 = if_known(ro, |r: Seq<char>| seq![seq![r, "axium"@, name_v], seq![r, name_v]]);
    let ghost part4 = if_known(co, |c: Seq<char>| seq![seq![c, "ascii-art-studio"@, name_v]]);
    let ghost part5 = if_known(mo, |m: Seq<char>| seq![seq![m, ".."@, "assets"@, "Axium"@, "bin"@, os_v, name_v]]);
    if let Some(p) = &saved {
        let mut parts: Vec<&str> = Vec::new();
        parts.push(p.as_str());
        let q = strings_of(&parts);
        assert(path_view(q) =~= seq![p@]);
        v.push(q);
    }
    assert(paths_view(v@) =~~= part1);
    let ghost after1 = paths_view(v@);
    if let Some(d) = &exe_dir {
        let mut a: Vec<&str> = Vec::new();
        a.push(d.as_str());
        a.push(name);
        let qa = strings_of(&a);
        assert(path_view(qa) =~= seq![d@, name_v]);
        v.push(qa);
        let mut b: Vec<&str> = Vec::new();
        b.push(d.as_str());
        b.push("axium");
        b.push(name);
        let qb = strings_of(&b);
        assert(path_view(qb) =~= seq![d@, "axium"@, name_v]);
        v.push(qb);
    }
    assert(paths_view(v@) =~~= after1 + part2);
    let ghost after2 = paths_view(v@);
    if let Some(r) = &resource_dir {
        let mut a: Vec<&str> = Vec::new();
        a.push(r.as_str());
        a.push("axium");
        a.push(name);
        let qa = strings_of(&a);
        assert(path_view(qa) =~= seq![r@, "axium"@, name_v]);
        v.push(qa);
        let mut b: Vec<&str> = Vec::new();
        b.push(r.as_str());
        b.push(name);
        let qb = strings_of(&b);
        assert(path_view(qb) =~= seq![r@, name_v]);
        v.push(qb);
    }
    assert(paths_view(v@) =~~= after2 + part3);
    let ghost after3 = paths_view(v@);
    if let Some(c) = &config_dir {
        let mut a: Vec<&str> = Vec::new();
        a.push(c.as_str());
        a.push("ascii-art-studio");
        a.push(name);
        let qa = strings_of(&a);
        assert(path_view(qa) =~= seq![c@, "ascii-art-studio"@, name_v]);
        v.push(qa);
    }
    assert(paths_view(v@) =~~= after3 + part4);
    let ghost after4 = paths_view(v@);
    if let Some(m) = &manifest_dir {
        let mut a: Vec<&str> = Vec::new();
        a.push(m.as_str());
        a.push("..");
        a.push("assets");
        a.push("Axium");
        a.push("bin");
        a.push(os);
        a.push(name);
        let qa = strings_of(&a);
        assert(path_view(qa) =~= seq![m@, ".."@, "assets"@, "Axium"@, "bin"@, os_v, name_v]);
        v.push(qa);
    }
    assert(paths_view(v@) =~~= after4 + part5);
    v
}

// ---------------------------------------------------------------------------
// Compile diagnostics
// ---------------------------------------------------------------------------

/// The category name of a diagnostic from the stage number the engine
/// reports.
pub open spec fn stage_name(stage: u8) -> Seq<char> {
    if stage == 0 {
        "LexError"@
    } else if stage == 1 {
        "ParseError"@
    } else if stage == 2 {
        "NameError"@
    } else if stage == 3 {
        "TypeError"@
    } else if stage == 4 {
        "BytecodeError"@
    } else if stage == 5 {
        "RuntimeError"@
    } else {
        "Error"@
    }
}

/// The category name of engine stage `stage` (see `stage_name`).
pub fn stage_category(stage: u8) -> (s: &'static str)
    ensures
        s@ == stage_name(stage),
{
    if stage == 0 {
        "LexError"
    } else if stage == 1 {
        "ParseError"
    } else if stage == 2 {
        "NameError"
    } else if stage == 3 {
        "TypeError"
    } else if stage == 4 {
        "BytecodeError"
    } else if stage == 5 {
        "RuntimeError"
    } else {
        "Error"
    }
}

/// One diagnostic as the engine reports it: severity 1 is a warning, any
/// other an error; an absent message or help is `None`.
pub struct RawDiagnostic {
    pub severity: u8,
    pub stage: u8,
    pub line: u32,
    pub col: u32,
    pub end_line: u32,
    pub end_col: u32,
    pub message: Option<String>,
    pub help: Option<String>,
}

/// One compile diagnostic of a script, for inline highlighting in the
/// editor.
pub struct ScriptDiagnostic {
    pub severity: String,
    pub stage: String,
    pub line: u32,
    pub col: u32,
    pub end_line: u32,
    pub end_col: u32,
    pub message: String,
    pub help: Option<String>,
}

/// The severity name of an engine severity code.
pub open spec fn severity_name(code: u8) -> Seq<char> {
    if code == 1 {
        "warning"@
    } else {
        "error"@
    }
}

/// `d` reports `raw`: severity and stage by name, the positions as they
/// are, an absent message as the empty text and the help as it is.
pub open spec fn reports(d: ScriptDiagnostic, raw: RawDiagnostic) -> bool {
    &&& d.severity@ == severity_name(raw.severity)
    &&& d.stage@ == stage_name(raw.stage)
    &&& d.line == raw.line
    &&& d.col == raw.col
    &&& d.end_line == raw.end_line
    &&& d.end_col == raw.end_col
    &&& d.message@ == (match raw.message {
        Some(m) => m@,
        None => Seq::<char>::empty(),
    })
    &&& (match (d.help, raw.help) {
        (Some(a), Some(b)) => a@ == b@,
        (None, None) => true,
        _ => false,
    })
}

fn clone_opt(o: &Option<String>) -> (r: Option<String>)
    ensures
        match (r, *o) {
            (Some(a), Some(b)) => a@ == b@,
            (None, None) => true,
            _ => false,
        },
{
    match o {
        Some(s) => Some(s.clone()),
        None => None,
    }
}

impl ScriptDiagnostic {
    /// The report of one raw diagnostic.
    pub fn from_raw(raw: &RawDiagnostic) -> (d: ScriptDiagnostic)
        ensures
            reports(d, *raw),
    {
        let severity = if raw.severity == 1 {
            String::from_str("warning")
        } else {
            String::from_str("error")
        };
        let stage = String::from_str(stage_category(raw.stage));
        let message = match &raw.message {
            Some(m) => m.clone(),
            None => String::new(),
        };
        ScriptDiagnostic {
            severity,
            stage,
            line: raw.line,
            col: raw.col,
            end_line: raw.end_line,
            end_col: raw.end_col,
            message,
            help: clone_opt(&raw.help),
        }
    }
}

/// The values of the entries that are present, in order.
pub open spec fn present<T>(s: Seq<Option<T>>) -> Seq<T>
    decreases s.len(),
{
    if s.len() == 0 {
        Seq::empty()
    } else {
        let rest = present(s.drop_last());
        match s.last() {
            Some(v) => rest.push(v),
            None => rest,
        }
    }
}

proof fn lemma_present_step<T>(s: Seq<Option<T>>, k: int)
    requires
        0 <= k < s.len(),
    ensures
        present(s.take(k + 1)) == (match s[k] {
            Some(v) => present(s.take(k)).push(v),
            None => present(s.take(k)),
        }),
{
    assert(s.take(k + 1).drop_last() =~= s.take(k));
    assert(s.take(k + 1).last() == s[k]);
}

/// The reports of a compile: `raws[i]` is diagnostic `i` as the engine
/// handed it out, `None` where reading it failed; those are skipped, the
/// others reported in order.
pub fn collect_diagnostics(raws: &Vec<Option<RawDiagnostic>>) -> (ds: Vec<ScriptDiagnostic>)
    ensures
        ds@.len() == present(raws@).len(),
        forall|k: int| 0 <= k < ds@.len() ==> reports(#[trigger] ds@[k], present(raws@)[k]),
{
    let mut ds: Vec<ScriptDiagnostic> = Vec::new();
    let n = raws.len();
    for i in 0..n
        invariant
            n == raws@.len(),
            ds@.len() == present(raws@.take(i as int)).len(),
            forall|k: int| 0 <= k < ds@.len() ==> reports(#[trigger] ds@[k], present(raws@.take(i as int))[k]),
    {
        proof {
            lemma_present_step(raws@, i as int);
        }
        match &raws[i] {
            Some(raw) => {
                let d = ScriptDiagnostic::from_raw(raw);
                ds.push(d);
            },
            None => {},
        }
    }
    proof {
        assert(raws@.take(n as int) =~= raws@);
    }
    ds
}

/// The signatures of the registered natives (`"Class.method(Args)Ret"`):
/// `entries[i]` is native `i`, `None` where reading it failed; those are
/// skipped.
pub fn collect_natives(entries: &Vec<Option<String>>) -> (names: Vec<String>)
    ensures
        names@.len() == present(entries@).len(),
        forall|k: int| 0 <= k < names@.len() ==> (#[trigger] names@[k])@ == present(entries@)[k]@,
{
    let mut names: Vec<String> = Vec::new();
    let n = entries.len();
    for i in 0..n
        invariant
            n == entries@.len(),
            names@.len() == present(entries@.take(i as int)).len(),
            forall|k: int| 0 <= k < names@.len() ==> (#[trigger] names@[k])@ == present(entries@.take(i as int))[k]@,
    {
        proof {
            lemma_present_step(entries@, i as int);
        }
        match &entries[i] {
            Some(s) => {
                names.push(s.clone());
            },
            None => {},
        }
    }
    proof {
        assert(entries@.take(n as int) =~= entries@);
    }
    names
}

// ---------------------------------------------------------------------------
// Results of a run
// ---------------------------------------------------------------------------

/// Tag of the engine's null value.
pub const AX_NULL: u8 = 0;
/// Tag of an integer value.
pub const AX_INT: u8 = 1;
/// Tag of a floating-point value.
pub const AX_FLOAT: u8 = 2;
/// Tag of a boolean value.
pub const AX_BOOL: u8 = 3;
/// Tag of a reference into the script heap.
pub const AX_REF: u8 = 4;

/// The text of an engine value with tag `tag` and integer payload `i`:
/// integers in decimal, booleans as `true` or `false`, floats as
/// `float_text` (their text as Rust writes an `f64`), anything else `null`.
pub open spec fn ax_value_text(tag: u8, i: i64, float_text: Seq<char>) -> Seq<char> {
    if tag == AX_INT {
        signed_decimal(i as int)
    } else if tag == AX_FLOAT {
        float_text
    } else if tag == AX_BOOL {
        if i != 0 {
            "true"@
        } else {
            "false"@
        }
    } else {
        "null"@
    }
}

/// Writes a value `main()` returned (see `ax_value_text`).
pub fn format_ax_value(tag: u8, i: i64, float_text: &str) -> (s: String)
    ensures
        s@ == ax_value_text(tag, i, float_text@),
{
    if tag == AX_INT {
        let mut s = String::new();
        push_signed_decimal(&mut s, i);
        s
    } else if tag == AX_FLOAT {
        String::from_str(float_text)
    } else if tag == AX_BOOL {
        if i != 0 {
            String::from_str("true")
        } else {
            String::from_str("false")
        }
    } else {
        String::from_str("null")
    }
}

/// The message of a failed compile: the engine's last error, or a generic
/// one when it has none.
pub fn compile_error_message(last_error: Option<String>) -> (m: String)
    ensures
        m@ == (match last_error {
            Some(e) => e@,
            None => "ошибка компиляции"@,
        }),
{
    match last_error {
        Some(e) => e,
        None => String::from_str("ошибка компиляции"),
    }
}

/// What a run returns: the engine's error if it reported one; otherwise
/// what the script printed, or, when it printed nothing, the text of the
/// value `main()` returned.
pub fn run_outcome(last_error: Option<String>, captured: String, value_text: String) -> (r: Result<String, String>)
    ensures
        match last_error {
            Some(e) => r matches Err(m) && m@ == e@,
            None => r matches Ok(t) && t@ == (if captured@.len() == 0 {
                value_text@
            } else {
                captured@
            }),
        },
{
    match last_error {
        Some(e) => Err(e),
        None => {
            if captured.as_str().unicode_len() == 0 {
                Ok(value_text)
            } else {
                Ok(captured)
            }
        },
    }
}

// ---------------------------------------------------------------------------
// Pixel arrays from scripts
// ---------------------------------------------------------------------------

/// A size argument from a script: negative values count as 0, and the
/// value is then cut to its low 32 bits (`v.max(0) as u32`).
pub open spec fn script_dim_value(v: i64) -> u32 {
    if v < 0 {
        0
    } else {
        (v as int % 0x1_0000_0000) as u32
    }
}

/// Reads a size argument (see `script_dim_value`).
pub fn script_dim(v: i64) -> (d: u32)
    ensures
        d == script_dim_value(v),
{
    if v < 0 {
        0
    } else {
        (v % 0x1_0000_0000) as u32
    }
}

/// A palette-index argument from a script: negative values count as 0.
pub fn script_index(v: i64) -> (i: usize)
    ensures
        i == (if v < 0 { 0 } else { v as usize }),
{
    if v < 0 {
        0
    } else {
        v as usize
    }
}

/// An `Integer` argument a setting takes as `i32`: its low 32 bits.
pub fn script_i32(v: i64) -> (i: i32)
    ensures
        i == v as i32,
{
    v as i32
}

/// The custom palette a script passed: none when it passed no string or an
/// empty one.
pub fn script_custom_palette(text: Option<String>) -> (p: Option<String>)
    ensures
        match text {
            Some(t) => if t@.len() == 0 { p is None } else { p matches Some(q) && q@ == t@ },
            None => p is None,
        },
{
    match text {
        Some(t) => {
            if t.as_str().unicode_len() == 0 {
                None
            } else {
                Some(t)
            }
        },
        None => None,
    }
}

/// Channel `c` (0 red, 1 green, 2 blue) of a packed `0xRRGGBB` value.
pub open spec fn packed_channel(packed: i64, c: int) -> u8 {
    if c == 0 {
        ((packed >> 16) & 0xff) as u8
    } else if c == 1 {
        ((packed >> 8) & 0xff) as u8
    } else {
        (packed & 0xff) as u8
    }
}

/// The RGB24 image a script's pixel array describes: pixel `i` is
/// `raw[i]`, packed as `0xRRGGBB`.
pub open spec fn unpacked_rgb(raw: Seq<i64>, n: int) -> Seq<u8> {
    Seq::new((n * 3) as nat, |k: int| packed_channel(raw[k / 3], k % 3))
}

/// Unpacks a script's pixel array for a `w` x `h` image: nothing when a
/// side is 0 or the array holds fewer than `w * h` values, otherwise the
/// RGB bytes of its first `w * h` values (see `unpacked_rgb`).
pub fn unpack_pixels(raw: &Vec<i64>, w: u32, h: u32) -> (r: Option<Vec<u8>>)
    requires
        raw@.len() < (w as int) * (h as int) || (w as int) * (h as int) * 3 <= u32::MAX,
    ensures
        match r {
            Some(buf) => w > 0 && h > 0 && raw@.len() >= (w as int) * (h as int)
                && buf@ == unpacked_rgb(raw@, (w as int) * (h as int)),
            None => w == 0 || h == 0 || raw@.len() < (w as int) * (h as int),
        },
{
    if w == 0 || h == 0 {
        return None;
    }
    let (wl, hl) = (w as u64, h as u64);
    assert(wl * hl <= 0xffff_ffff_ffff_ffff) by (nonlinear_arith)
        requires
            wl <= 0xffff_ffff,
            hl <= 0xffff_ffff,
    ;
    let count = wl * hl;
    if (raw.len() as u64) < count {
        return None;
    }
    let n = count as usize;
    let mut buf: Vec<u8> = Vec::new();
    for i in 0..n
        invariant
            n == (w as int) * (h as int),
            n <= raw@.len(),
            buf@.len() == i * 3,
            forall|k: int| 0 <= k < buf@.len() ==> #[trigger] buf@[k] == packed_channel(raw@[k / 3], k % 3),
    {
        let packed = raw[i];
        buf.push(((packed >> 16) & 0xff) as u8);
        buf.push(((packed >> 8) & 0xff) as u8);
        buf.push((packed & 0xff) as u8);
        proof {
            let b = i * 3;
            assert forall|k: int| 0 <= k < buf@.len() implies #[trigger] buf@[k] == packed_channel(raw@[k / 3], k % 3) by {
                if k >= b {
                    assert(k / 3 == i as int);
                }
            }
        }
    }
    proof {
        assert(buf@ =~= unpacked_rgb(raw@, (w as int) * (h as int)));
    }
    Some(buf)
}

/// Unpacking inverts the packing scripts use for colours
/// (`0xRRGGBB`, as `std.gfx.Color.make` builds it): the channels of
/// `r * 65536 + g * 256 + b` are `r`, `g` and `b`.
pub proof fn lemma_unpack_inverts_packing(r: u8, g: u8, b: u8, packed: i64)
    requires
        packed == (r as int) * 65536 + (g as int) * 256 + (b as int),
    ensures
        packed_channel(packed, 0) == r,
        packed_channel(packed, 1) == g,
        packed_channel(packed, 2) == b,
{
    let (r64, g64, b64) = (r as i64, g as i64, b as i64);
    assert(packed == r64 * 65536 + g64 * 256 + b64);
    assert(((packed >> 16) & 0xff) == r64 && ((packed >> 8) & 0xff) == g64 && (packed & 0xff) == b64) by (bit_vector)
        requires
            packed == r64 * 65536 + g64 * 256 + b64,
            0 <= r64 < 256,
            0 <= g64 < 256,
            0 <= b64 < 256,
    ;
}

} // verus!
