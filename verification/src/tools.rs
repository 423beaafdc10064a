//! The tools' own logic, apart from the processes and files they touch:
//! which shell a command asks for, how a command line splits into words,
//! how a command's output is reported back, how a file's lines are
//! numbered, where a relative path lands, and which tools the permission
//! lists let the agent call.
use vstd::prelude::*;

use crate::paths::{join_path, joined, joined_path, plainly_relative, verbatim};
use crate::settings::str_eq;
use crate::text::{
    chars_of, decimal, decimal_chars, extend_chars, has_prefix_at, join, join_chars, lines,
    lines_state, push_str_chars, seqs, split_lines, starts_with_at, string_of, trim, trim_chars,
};

verus! {

/// What a tool hands back to the model.
#[derive(Debug, Clone, PartialEq, Eq)]
pub struct ToolOutput {
    pub content: String,
    pub is_error: bool,
}

/// Which shell runs a command.
#[derive(Debug, Clone, Copy, PartialEq, Eq, Structural)]
pub enum Shell {
    /// PowerShell commands run directly, everything else through cmd.
    Auto,
    /// `cmd.exe /C`.
    Cmd,
    /// `powershell.exe -NoProfile -Command`.
    Ps,
}

/// The shell tool, running commands in its working directory. The tools
/// of a session share one working directory, a `WorkingDir` their caller
/// owns: each call gets its tool from there (`WorkingDir::bash_tool`), so
/// a command always runs where the latest `cd` left the session.
#[derive(Debug, Clone, PartialEq, Eq)]
pub struct BashTool {
    pub work_dir: String,
}

impl BashTool {
    /// A shell tool running in `work_dir`.
    pub fn new(work_dir: String) -> (t: BashTool)
        ensures
            t.work_dir == work_dir,
    {
        BashTool { work_dir }
    }
}

/// The shell a command asks for when it names none.
pub fn default_shell() -> (s: String)
    ensures
        s@ == "auto"@,
{
    "auto".to_owned()
}

/// The shell a command's `shell` field names: `cmd`, `powershell` or
/// `pwsh`, and anything else is automatic.
pub open spec fn shell_named(name: Seq<char>) -> Shell {
    if name == "cmd"@ {
        Shell::Cmd
    } else if name == "powershell"@ || name == "pwsh"@ {
        Shell::Ps
    } else {
        Shell::Auto
    }
}

/// Resolve a command's `shell` field.
pub fn resolve_shell(shell: &str) -> (r: Shell)
    ensures
        r == shell_named(shell@),
{
    if str_eq(shell, "cmd") {
        Shell::Cmd
    } else if str_eq(shell, "powershell") || str_eq(shell, "pwsh") {
        Shell::Ps
    } else {
        Shell::Auto
    }
}

// ---------------------------------------------------------------------
// Splitting a command line
// ---------------------------------------------------------------------
/// Reading `s` left to right: the words completed so far, the word being
/// read, and whether a double quote is open. Spaces outside quotes end a
/// word; quotes toggle and are dropped; every other character is kept.
pub open spec fn shell_scan(s: Seq<char>) -> (Seq<Seq<char>>, Seq<char>, bool)
    decreases s.len(),
{
    if s.len() == 0 {
        (seq![], seq![], false)
    } else {
        let prev = shell_scan(s.drop_last());
        let c = s.last();
        if c == '"' {
            (prev.0, prev.1, !prev.2)
        } else if c == ' ' && !prev.2 {
            if prev.1.len() > 0 {
                (prev.0.push(prev.1), seq![], prev.2)
            } else {
                prev
            }
        } else {
            (prev.0, prev.1.push(c), prev.2)
        }
    }
}

/// The words of a command line, quotes grouping words with spaces.
pub open spec fn shell_words(s: Seq<char>) -> Seq<Seq<char>> {
    let st = shell_scan(s);
    if st.1.len() > 0 {
        st.0.push(st.1)
    } else {
        st.0
    }
}

/// Split a command line into words on spaces outside double quotes,
/// dropping the quotes.
pub fn split_shell_words(input: &str) -> (r: Vec<String>)
    ensures
        r@.map_values(|w: String| w@) == shell_words(input@),
{
    let cs = chars_of(input);
    let mut words: Vec<String> = Vec::new();
    let mut current: Vec<char> = Vec::new();
    let mut in_quotes = false;
    let mut i: usize = 0;
    while i < cs.len()
        invariant
            i <= cs@.len(),
            cs@ == input@,
            (words@.map_values(|w: String| w@), current@, in_quotes) == shell_scan(cs@.take(i as int)),
        decreases cs.len() - i,
    {
        assert(cs@.take(i + 1).drop_last() =~= cs@.take(i as int));
        let ch = cs[i];
        if ch == '"' {
            in_quotes = !in_quotes;
        } else if ch == ' ' && !in_quotes {
            if current.len() > 0 {
                let ghost before = words@.map_values(|w: String| w@);
                let w = string_of(current.as_slice());
                words.push(w);
                current = Vec::new();
                assert(words@.map_values(|w: String| w@) =~= before.push(shell_scan(cs@.take(i as int)).1));
            }
        } else {
            current.push(ch);
        }
        i = i + 1;
    }
    assert(cs@.take(cs@.len() as int) =~= cs@);
    if current.len() > 0 {
        let ghost before = words@.map_values(|w: String| w@);
        words.push(string_of(current.as_slice()));
        assert(words@.map_values(|w: String| w@) =~= before.push(shell_scan(cs@).1));
    }
    words
}

// ---------------------------------------------------------------------
// Which way a command runs
// ---------------------------------------------------------------------
/// `c` is the lower-case ASCII letter `p`, or its upper-case form.
pub open spec fn folds_to(c: char, p: char) -> bool {
    c == p || ('A' <= c <= 'Z' && (c as int) + 32 == p as int)
}

/// `s` begins with the lower-case ASCII word `word`, ignoring ASCII case.
/// For the words this is asked of (`powershell`, `pwsh`) that is the same
/// as lower-casing `s` in full first: no character but the ASCII capitals
/// lower-cases to one of their letters.
pub open spec fn starts_folded(s: Seq<char>, word: Seq<char>) -> bool {
    word.len() <= s.len() && forall|i: int| 0 <= i < word.len() ==> folds_to(#[trigger] s[i], word[i])
}

/// Whether a command runs directly as a PowerShell command line rather
/// than through `cmd /C`: always for the PowerShell shell, never for cmd,
/// and on the automatic shell when the trimmed command starts with
/// `powershell` or `pwsh`, in any case.
pub open spec fn runs_powershell(shell: Shell, command: Seq<char>) -> bool {
    match shell {
        Shell::Ps => true,
        Shell::Cmd => false,
        Shell::Auto => starts_folded(trim(command), "powershell"@) || starts_folded(trim(command), "pwsh"@),
    }
}

fn folds(c: char, p: char) -> (b: bool)
    ensures
        b == folds_to(c, p),
{
    c == p || ('A' <= c && c <= 'Z' && (c as u32) + 32 == (p as u32))
}

fn starts_with_folded(s: &[char], word: &[char]) -> (b: bool)
    ensures
        b == starts_folded(s@, word@),
{
    if word.len() > s.len() {
        return false;
    }
    let mut i: usize = 0;
    while i < word.len()
        invariant
            i <= word@.len() <= s@.len(),
            forall|j: int| 0 <= j < i ==> folds_to(#[trigger] s@[j], word@[j]),
        decreases word.len() - i,
    {
        if !folds(s[i], word[i]) {
            return false;
        }
        i = i + 1;
    }
    true
}

/// Whether `command` runs directly as a PowerShell command line on
/// `shell` (see `runs_powershell`).
pub fn uses_powershell(shell: Shell, command: &str) -> (b: bool)
    ensures
        b == runs_powershell(shell, command@),
{
    match shell {
        Shell::Ps => true,
        Shell::Cmd => false,
        Shell::Auto => {
            let cs = chars_of(command);
            let t = trim_chars(cs.as_slice());
            let ps = chars_of("powershell");
            let pw = chars_of("pwsh");
            starts_with_folded(t.as_slice(), ps.as_slice()) || starts_with_folded(t.as_slice(), pw.as_slice())
        },
    }
}

// ---------------------------------------------------------------------
// Reporting a command's output
// ---------------------------------------------------------------------
/// What a finished command printed and how it exited.
#[derive(Debug, Clone, PartialEq, Eq)]
pub struct CommandOutput {
    pub stdout: String,
    pub stderr: String,
    pub exit_code: i32,
}

/// The decimal form of a signed integer.
pub open spec fn signed_decimal(n: int) -> Seq<char> {
    if n < 0 {
        seq!['-'] + decimal((-n) as nat)
    } else {
        decimal(n as nat)
    }
}

/// A command's report: its standard output, then (when it wrote any) its
/// standard error under a `[stderr]` line, then its exit code.
pub open spec fn output_report(out: CommandOutput) -> Seq<char> {
    let so = out.stdout@;
    let se = out.stderr@;
    let with_err = if se.len() > 0 {
        so + (if so.len() > 0 {
            seq!['\n']
        } else {
            seq![]
        }) + "[stderr]\n"@ + se
    } else {
        so
    };
    with_err + "\n[exit code: "@ + signed_decimal(out.exit_code as int) + seq![']']
}

fn signed_decimal_chars(n: i32) -> (r: Vec<char>)
    ensures
        r@ == signed_decimal(n as int),
{
    if n < 0 {
        let m: u64 = (0i64 - (n as i64)) as u64;
        let mut out: Vec<char> = Vec::new();
        out.push('-');
        let d = decimal_chars(m);
        extend_chars(&mut out, d.as_slice());
        out
    } else {
        decimal_chars(n as u64)
    }
}

/// Format a finished command's output for the model.
pub fn format_output(out: &CommandOutput) -> (r: String)
    ensures
        r@ == output_report(*out),
{
    let mut s: Vec<char> = Vec::new();
    let so = chars_of(out.stdout.as_str());
    let se = chars_of(out.stderr.as_str());
    if so.len() > 0 {
        extend_chars(&mut s, so.as_slice());
    }
    if se.len() > 0 {
        if s.len() > 0 {
            s.push('\n');
        }
        push_str_chars(&mut s, "[stderr]\n");
        extend_chars(&mut s, se.as_slice());
    }
    push_str_chars(&mut s, "\n[exit code: ");
    let code = signed_decimal_chars(out.exit_code);
    extend_chars(&mut s, code.as_slice());
    s.push(']');
    string_of(s.as_slice())
}

// ---------------------------------------------------------------------
// Numbering lines
// ---------------------------------------------------------------------
/// `s` right-aligned in a field `width` characters wide.
pub open spec fn pad_left(s: Seq<char>, width: nat) -> Seq<char> {
    if s.len() < width {
        Seq::new((width - s.len()) as nat, |_i: int| ' ') + s
    } else {
        s
    }
}

/// Each line prefixed with its number (counting from `start`), the
/// numbers right-aligned to the width of `start + lines.len()`, a tab
/// between number and line, the lines joined by `\n`.
pub open spec fn numbered(lines: Seq<Seq<char>>, start: nat) -> Seq<char> {
    let width = decimal(start + lines.len()).len();
    join(
        Seq::new(lines.len(), |i: int| pad_left(decimal((start + i) as nat), width) + seq!['\t'] + lines[i]),
        seq!['\n'],
    )
}

/// Number `lines` from `start_num`, right-aligning the numbers.
pub fn format_with_line_numbers(lines: &[&str], start_num: usize) -> (r: String)
    requires
        start_num + lines@.len() <= usize::MAX,
    ensures
        r@ == numbered(lines@.map_values(|l: &str| l@), start_num as nat),
{
    let ghost ls = lines@.map_values(|l: &str| l@);
    let total = decimal_chars((start_num + lines.len()) as u64);
    let width = total.len();
    let ghost want = Seq::new(
        ls.len(),
        |i: int| pad_left(decimal((start_num + i) as nat), width as nat) + seq!['\t'] + ls[i],
    );
    let mut parts: Vec<Vec<char>> = Vec::new();
    let mut i: usize = 0;
    while i < lines.len()
        invariant
            i <= lines@.len(),
            ls == lines@.map_values(|l: &str| l@),
            start_num + lines@.len() <= usize::MAX,
            width == decimal((start_num + lines@.len()) as nat).len(),
            want == Seq::new(
                ls.len(),
                |i: int| pad_left(decimal((start_num + i) as nat), width as nat) + seq!['\t'] + ls[i],
            ),
            seqs(parts@) == want.take(i as int),
        decreases lines.len() - i,
    {
        let num = decimal_chars((start_num + i) as u64);
        let mut part: Vec<char> = Vec::new();
        let mut k: usize = num.len();
        while k < width
            invariant
                num.len() <= k <= width || (width < num.len() && k == num.len()),
                part@ == Seq::new((k - num.len()) as nat, |_i: int| ' '),
            decreases width - k,
        {
            part.push(' ');
            assert(part@ =~= Seq::new((k + 1 - num.len()) as nat, |_i: int| ' '));
            k = k + 1;
        }
        extend_chars(&mut part, num.as_slice());
        part.push('\t');
        push_str_chars(&mut part, lines[i]);
        proof {
            let d = decimal((start_num + i) as nat);
            if d.len() < width {
                assert(part@ =~= pad_left(d, width as nat) + seq!['\t'] + ls[i as int]);
            } else {
                assert(Seq::new((k - num.len()) as nat, |_i: int| ' ') =~= Seq::<char>::empty());
                assert(part@ =~= pad_left(d, width as nat) + seq!['\t'] + ls[i as int]);
            }
        }
        let ghost before = seqs(parts@);
        parts.push(part);
        assert(seqs(parts@) =~= before.push(want[i as int]));
        assert(want.take(i + 1) =~= want.take(i as int).push(want[i as int]));
        i = i + 1;
    }
    assert(want.take(want.len() as int) =~= want);
    let sep = ['\n'];
    assert(sep@ =~= seq!['\n']);
    let r = join_chars(&parts, &sep);
    string_of(r.as_slice())
}

// ---------------------------------------------------------------------
// Paths
// ---------------------------------------------------------------------
/// Whether `path` is absolute on this platform (`Path::is_absolute`): a
/// function of the path and the platform alone.
pub uninterp spec fn absolute_path(path: Seq<char>) -> bool;

/// `Path::is_absolute`. Its result is named; a plainly relative path (see
/// `plainly_relative`) is never absolute, on any platform.
#[verifier::external_body]
fn path_is_absolute(path: &str) -> (b: bool)
    ensures
        b == absolute_path(path@),
        plainly_relative(path@) ==> !b,
{
    std::path::Path::new(path).is_absolute()
}

/// A path a tool was given, resolved against `working_dir`: as given when
/// absolute, else joined onto the working directory.
pub open spec fn resolved_path(working_dir: Seq<char>, path: Seq<char>) -> Seq<char> {
    if absolute_path(path) {
        path
    } else {
        joined_path(working_dir, path)
    }
}

/// Resolve a path a tool was given against the working directory: an
/// absolute path is used as given, a relative one is joined onto the
/// working directory.
pub fn resolve_path(working_dir: &str, path: &str) -> (r: String)
    ensures
        r@ == resolved_path(working_dir@, path@),
        plainly_relative(path@) && !verbatim(working_dir@) ==> joined(r@, working_dir@, path@),
{
    if path_is_absolute(path) {
        path.to_owned()
    } else {
        join_path(working_dir, path)
    }
}

/// The read tool, acting relative to its working directory.
#[derive(Debug, Clone, PartialEq, Eq)]
pub struct ReadTool {
    pub working_dir: String,
}

impl ReadTool {
    /// A read tool working in `working_dir`.
    pub fn new(working_dir: String) -> (t: ReadTool)
        ensures
            t.working_dir == working_dir,
    {
        ReadTool { working_dir }
    }

    /// Resolve the path the tool was given against its working
    /// directory; an absolute path is used as given.
    pub fn resolve_path(&self, file_path: &str) -> (r: String)
        ensures
            r@ == resolved_path(self.working_dir@, file_path@),
    {
        resolve_path(self.working_dir.as_str(), file_path)
    }
}

/// The write tool, acting relative to its working directory.
#[derive(Debug, Clone, PartialEq, Eq)]
pub struct WriteTool {
    pub working_dir: String,
}

impl WriteTool {
    /// A write tool working in `working_dir`.
    pub fn new(working_dir: String) -> (t: WriteTool)
        ensures
            t.working_dir == working_dir,
    {
        WriteTool { working_dir }
    }

    /// Resolve the path the tool was given against its working
    /// directory; an absolute path is used as given.
    pub fn resolve_path(&self, file_path: &str) -> (r: String)
        ensures
            r@ == resolved_path(self.working_dir@, file_path@),
    {
        resolve_path(self.working_dir.as_str(), file_path)
    }
}

/// The cd tool, acting relative to its working directory.
#[derive(Debug, Clone, PartialEq, Eq)]
pub struct CdTool {
    pub working_dir: String,
}

impl CdTool {
    /// A cd tool working in `working_dir`.
    pub fn new(working_dir: String) -> (t: CdTool)
        ensures
            t.working_dir == working_dir,
    {
        CdTool { working_dir }
    }

    /// Resolve the path the tool was given against its working
    /// directory; an absolute path is used as given.
    pub fn resolve_path(&self, path: &str) -> (r: String)
        ensures
            r@ == resolved_path(self.working_dir@, path@),
    {
        resolve_path(self.working_dir.as_str(), path)
    }
}

/// The working directory the tools of a session share: `cd` moves it, and
/// every later shell command, read and write starts from it.
#[derive(Debug, Clone, PartialEq, Eq)]
pub struct WorkingDir {
    pub path: String,
}

impl WorkingDir {
    /// A session's tools starting out in `path`.
    pub fn new(path: String) -> (w: WorkingDir)
        ensures
            w.path == path,
    {
        WorkingDir { path }
    }

    /// The shell tool for the next command: it runs in the current
    /// directory.
    pub fn bash_tool(&self) -> (t: BashTool)
        ensures
            t.work_dir == self.path,
    {
        BashTool::new(self.path.clone())
    }

    /// The read tool for the next read, relative to the current directory.
    pub fn read_tool(&self) -> (t: ReadTool)
        ensures
            t.working_dir == self.path,
    {
        ReadTool::new(self.path.clone())
    }

    /// The write tool for the next write, relative to the current
    /// directory.
    pub fn write_tool(&self) -> (t: WriteTool)
        ensures
            t.working_dir == self.path,
    {
        WriteTool::new(self.path.clone())
    }

    /// The cd tool, resolving its target against the current directory.
    pub fn cd_tool(&self) -> (t: CdTool)
        ensures
            t.working_dir == self.path,
    {
        CdTool::new(self.path.clone())
    }

    /// Finish a `cd` to `resolved` once the target was checked and
    /// canonicalized: on success the directory moves there for every
    /// later call of every tool; on failure it stays.
    pub fn finish_cd(&mut self, resolved: &str, canonical: Result<String, String>) -> (out: ToolOutput)
        ensures
            match canonical {
                Ok(c) => {
                    &&& final(self).path == c
                    &&& !out.is_error
                    &&& out.content@ == "working directory is now "@ + c@
                },
                Err(e) => {
                    &&& final(self).path == old(self).path
                    &&& out.is_error
                    &&& out.content@ == "cd: cannot read "@ + resolved@ + ": "@ + e@
                },
            },
    {
        let (out, moved) = cd_finish(resolved, canonical);
        match moved {
            Some(c) => {
                self.path = c;
            },
            None => {},
        }
        out
    }
}

// ---------------------------------------------------------------------
// The read tool's report
// ---------------------------------------------------------------------
/// A file never has more lines than characters.
pub proof fn lemma_lines_len(s: Seq<char>)
    ensures
        lines(s).len() <= s.len(),
        lines_state(s).0.len() + lines_state(s).1.len() <= s.len(),
    decreases s.len(),
{
    if s.len() > 0 {
        lemma_lines_len(s.drop_last());
    }
}

/// The first line a read shows (counting from 0): `offset` counts from 1,
/// and an offset of 0 is taken as 1.
pub open spec fn read_start(offset: Option<usize>) -> nat {
    match offset {
        Some(o) => if o >= 1 { (o - 1) as nat } else { 0 },
        None => 0,
    }
}

/// One past the last line a read shows: `limit` lines from the start, or
/// to the end of the file.
pub open spec fn read_end(total: nat, offset: Option<usize>, limit: Option<usize>) -> nat {
    match limit {
        Some(n) => if read_start(offset) + n < total { (read_start(offset) + n) as nat } else { total },
        None => total,
    }
}

/// What the read tool reports for a file's `contents`: the selected lines
/// numbered from their position in the file and a footer naming the
/// range, or, when no line is selected, a note giving the file's line
/// count and the offset asked for.
pub open spec fn read_text(contents: Seq<char>, offset: Option<usize>, limit: Option<usize>) -> Seq<char> {
    let ls = lines(contents);
    let total = ls.len();
    let start = read_start(offset);
    let end = read_end(total, offset, limit);
    let shown = if start < total { numbered(ls.subrange(start as int, end as int), start + 1) } else { seq![] };
    if shown.len() == 0 {
        "(empty - "@ + decimal(total) + " total lines, requested offset="@ + decimal(start + 1) + ")"@
    } else {
        shown + "\n[lines "@ + decimal(start + 1) + "-"@ + decimal(end) + " of "@ + decimal(total) + "]"@
    }
}

/// The read tool's report for a file it has read.
pub fn read_report(contents: &str, offset: Option<usize>, limit: Option<usize>) -> (r: String)
    requires
        contents@.len() < usize::MAX,
        limit matches Some(n) ==> read_start(offset) + n <= usize::MAX,
    ensures
        r@ == read_text(contents@, offset, limit),
{
    let cs = chars_of(contents);
    let ls = split_lines(cs.as_slice());
    proof {
        lemma_lines_len(contents@);
    }
    let total = ls.len();
    let start: usize = match offset {
        Some(o) => if o >= 1 { o - 1 } else { 0 },
        None => 0,
    };
    let end: usize = match limit {
        Some(n) => if start + n < total { start + n } else { total },
        None => total,
    };
    let mut shown_lines: Vec<String> = Vec::new();
    if start < total {
        let mut i: usize = start;
        while i < end
            invariant
                start <= i <= end <= total,
                total == ls@.len(),
                shown_lines@.len() == i - start,
                forall|j: int| 0 <= j < shown_lines@.len() ==> #[trigger] shown_lines@[j]@ == ls@[start + j]@,
            decreases end - i,
        {
            shown_lines.push(string_of(ls[i].as_slice()));
            i = i + 1;
        }
    }
    let mut refs: Vec<&str> = Vec::new();
    let mut k: usize = 0;
    while k < shown_lines.len()
        invariant
            k <= shown_lines@.len(),
            refs@.len() == k,
            forall|j: int| 0 <= j < k ==> #[trigger] refs@[j]@ == shown_lines@[j]@,
        decreases shown_lines.len() - k,
    {
        refs.push(shown_lines[k].as_str());
        k = k + 1;
    }
    let ghost ls_view = seqs(ls@);
    proof {
        if start < total {
            assert(refs@.map_values(|l: &str| l@) =~= ls_view.subrange(start as int, end as int));
        } else {
            assert(refs@.map_values(|l: &str| l@) =~= Seq::<Seq<char>>::empty());
        }
    }
    let shown = if start < total {
        format_with_line_numbers(refs.as_slice(), start + 1)
    } else {
        String::new()
    };
    proof {
        if !(start < total) {
            assert(refs@.len() == 0);
        }
    }
    let mut out: Vec<char> = Vec::new();
    if shown.as_str().is_empty() {
        push_str_chars(&mut out, "(empty - ");
        let t = decimal_chars(total as u64);
        extend_chars(&mut out, t.as_slice());
        push_str_chars(&mut out, " total lines, requested offset=");
        let o = decimal_chars((start + 1) as u64);
        extend_chars(&mut out, o.as_slice());
        push_str_chars(&mut out, ")");
    } else {
        push_str_chars(&mut out, shown.as_str());
        push_str_chars(&mut out, "\n[lines ");
        let a = decimal_chars((start + 1) as u64);
        extend_chars(&mut out, a.as_slice());
        push_str_chars(&mut out, "-");
        let b = decimal_chars(end as u64);
        extend_chars(&mut out, b.as_slice());
        push_str_chars(&mut out, " of ");
        let t = decimal_chars(total as u64);
        extend_chars(&mut out, t.as_slice());
        push_str_chars(&mut out, "]");
    }
    string_of(out.as_slice())
}

// ---------------------------------------------------------------------
// The cd tool's checks
// ---------------------------------------------------------------------
/// The cd tool's verdict on a target before it is canonicalized: missing,
/// or not a directory, is a tool error naming the path; else `None`, go on.
pub fn cd_check(resolved: &str, exists: bool, is_dir: bool) -> (r: Option<ToolOutput>)
    ensures
        !exists ==> (r matches Some(o) && o.is_error && o.content@ == "cd: no such path: "@ + resolved@),
        exists && !is_dir ==> (r matches Some(o) && o.is_error && o.content@ == "cd: not a directory: "@ + resolved@),
        exists && is_dir ==> r is None,
{
    if !exists {
        let mut t = chars_of("cd: no such path: ");
        push_str_chars(&mut t, resolved);
        return Some(ToolOutput { content: string_of(t.as_slice()), is_error: true });
    }
    if !is_dir {
        let mut t = chars_of("cd: not a directory: ");
        push_str_chars(&mut t, resolved);
        return Some(ToolOutput { content: string_of(t.as_slice()), is_error: true });
    }
    None
}

/// The cd tool's answer once the target was canonicalized: the new
/// working directory and a report naming it, or a tool error saying why
/// the target could not be read (the working directory then stays).
pub fn cd_finish(resolved: &str, canonical: Result<String, String>) -> (r: (ToolOutput, Option<String>))
    ensures
        match canonical {
            Ok(c) => {
                &&& !r.0.is_error
                &&& r.0.content@ == "working directory is now "@ + c@
                &&& r.1 == Some(c)
            },
            Err(e) => {
                &&& r.0.is_error
                &&& r.0.content@ == "cd: cannot read "@ + resolved@ + ": "@ + e@
                &&& r.1 is None
            },
        },
{
    match canonical {
        Ok(c) => {
            let mut t = chars_of("working directory is now ");
            push_str_chars(&mut t, c.as_str());
            (ToolOutput { content: string_of(t.as_slice()), is_error: false }, Some(c))
        },
        Err(e) => {
            let mut t = chars_of("cd: cannot read ");
            push_str_chars(&mut t, resolved);
            push_str_chars(&mut t, ": ");
            push_str_chars(&mut t, e.as_str());
            (ToolOutput { content: string_of(t.as_slice()), is_error: true }, None)
        },
    }
}

/// A tool's answer to input it could not read: `Invalid <tool> input: `
/// and why (the reader's own words), as a tool error.
pub fn invalid_input(tool: &str, detail: &str) -> (r: ToolOutput)
    ensures
        r.is_error,
        r.content@ == "Invalid "@ + tool@ + " input: "@ + detail@,
{
    let mut t = chars_of("Invalid ");
    push_str_chars(&mut t, tool);
    push_str_chars(&mut t, " input: ");
    push_str_chars(&mut t, detail);
    ToolOutput { content: string_of(t.as_slice()), is_error: true }
}

/// A session tool's answer to a session id that names no session id at
/// all: the id quoted, as a tool error.
pub fn invalid_session_id(tool: &str, session_id: &str) -> (r: ToolOutput)
    ensures
        r.is_error,
        r.content@ == "Invalid "@ + tool@ + " input: \""@ + session_id@ + "\" is not a valid session id"@,
{
    let mut t = chars_of("Invalid ");
    push_str_chars(&mut t, tool);
    push_str_chars(&mut t, " input: \"");
    push_str_chars(&mut t, session_id);
    push_str_chars(&mut t, "\" is not a valid session id");
    ToolOutput { content: string_of(t.as_slice()), is_error: true }
}

/// The `SendMessage` tool's answer once the session ran its turn: the
/// turn's final text, or a tool error saying why the session refused or
/// failed (a cap reached, an unknown session).
pub fn send_message_outcome(outcome: Result<String, String>) -> (r: ToolOutput)
    ensures
        match outcome {
            Ok(text) => !r.is_error && r.content == text,
            Err(e) => r.is_error && r.content@ == "SendMessage failed: "@ + e@,
        },
{
    match outcome {
        Ok(text) => ToolOutput { content: text, is_error: false },
        Err(e) => {
            let mut t = chars_of("SendMessage failed: ");
            push_str_chars(&mut t, e.as_str());
            ToolOutput { content: string_of(t.as_slice()), is_error: true }
        },
    }
}

/// The `CloseSession` tool's answer: the session named by `session_id` was
/// closed, or no open session had that id (a tool error).
pub fn close_session_outcome(session_id: &str, closed: bool) -> (r: ToolOutput)
    ensures
        closed ==> !r.is_error && r.content@ == "session "@ + session_id@ + " closed"@,
        !closed ==> r.is_error && r.content@ == "no open session with id "@ + session_id@,
{
    if closed {
        let mut t = chars_of("session ");
        push_str_chars(&mut t, session_id);
        push_str_chars(&mut t, " closed");
        ToolOutput { content: string_of(t.as_slice()), is_error: false }
    } else {
        let mut t = chars_of("no open session with id ");
        push_str_chars(&mut t, session_id);
        ToolOutput { content: string_of(t.as_slice()), is_error: true }
    }
}

/// The `AskUserQuestion` tool's answer: the formatted answers, or a tool
/// error when no answer could be had.
pub fn ask_outcome(outcome: Result<String, String>) -> (r: ToolOutput)
    ensures
        match outcome {
            Ok(answers) => !r.is_error && r.content == answers,
            Err(e) => r.is_error && r.content@ == "Failed to answer question: "@ + e@,
        },
{
    match outcome {
        Ok(answers) => ToolOutput { content: answers, is_error: false },
        Err(e) => {
            let mut t = chars_of("Failed to answer question: ");
            push_str_chars(&mut t, e.as_str());
            ToolOutput { content: string_of(t.as_slice()), is_error: true }
        },
    }
}

/// The shell tool's answer for a finished command: its report, an error
/// exactly when the exit code is not zero.
pub fn command_result(out: &CommandOutput) -> (r: ToolOutput)
    ensures
        r.content@ == output_report(*out),
        r.is_error == (out.exit_code != 0),
{
    ToolOutput { content: format_output(out), is_error: out.exit_code != 0 }
}

/// The shell tool's answer when a command outlives its time limit.
pub fn timeout_report(timeout_ms: u64, command: &str) -> (r: ToolOutput)
    ensures
        r.is_error,
        r.content@ == "Command timed out after "@ + decimal(timeout_ms as nat) + "ms\nCommand: "@ + command@,
{
    let mut t = chars_of("Command timed out after ");
    let n = decimal_chars(timeout_ms);
    extend_chars(&mut t, n.as_slice());
    push_str_chars(&mut t, "ms\nCommand: ");
    push_str_chars(&mut t, command);
    ToolOutput { content: string_of(t.as_slice()), is_error: true }
}

/// How long a command may run when it names no limit: two minutes.
pub const DEFAULT_COMMAND_TIMEOUT_MS: u64 = 120_000;

// ---------------------------------------------------------------------
// The write tool's report
// ---------------------------------------------------------------------
/// The write tool's answer once `bytes` bytes were written to `path`.
pub fn write_report(bytes: usize, path: &str) -> (r: String)
    ensures
        r@ == "Wrote "@ + decimal(bytes as nat) + " bytes to "@ + path@,
{
    let mut t = chars_of("Wrote ");
    let n = decimal_chars(bytes as u64);
    extend_chars(&mut t, n.as_slice());
    push_str_chars(&mut t, " bytes to ");
    push_str_chars(&mut t, path);
    string_of(t.as_slice())
}

// ---------------------------------------------------------------------
// The Task tool's dispatch request
// ---------------------------------------------------------------------
/// A `Task` call's input, as parsed. `description` is only a label for the
/// model's own bookkeeping; nothing reads it back.
#[derive(Debug, Clone, PartialEq, Eq)]
pub struct TaskInput {
    pub description: String,
    pub prompt: String,
    pub backend: String,
    pub model: Option<String>,
    pub keep_open: Option<bool>,
    pub working_dir: Option<String>,
    pub effort: Option<crate::settings::Effort>,
}

/// What a subagent dispatch runs.
#[derive(Debug, Clone, PartialEq, Eq)]
pub struct SubagentRequest {
    pub backend: String,
    pub model: Option<String>,
    pub prompt: String,
    pub depth: u32,
    pub keep_open: bool,
    pub working_dir_override: Option<String>,
    pub effort: crate::settings::Effort,
}

/// Turn a parsed `Task` input into a dispatch: at `dispatch_depth`, closed
/// after the call unless asked otherwise, in the session's directory
/// unless one is named, and at the input's effort level or else the
/// dispatching session's own.
pub fn build_request(parsed: TaskInput, dispatch_depth: u32, default_effort: crate::settings::Effort) -> (r: SubagentRequest)
    ensures
        r.backend == parsed.backend,
        r.model == parsed.model,
        r.prompt == parsed.prompt,
        r.depth == dispatch_depth,
        r.keep_open == match parsed.keep_open {
            Some(b) => b,
            None => false,
        },
        r.working_dir_override == parsed.working_dir,
        r.effort == match parsed.effort {
            Some(e) => e,
            None => default_effort,
        },
{
    let TaskInput { description: _, prompt, backend, model, keep_open, working_dir, effort } = parsed;
    SubagentRequest {
        backend,
        model,
        prompt,
        depth: dispatch_depth,
        keep_open: match keep_open {
            Some(b) => b,
            None => false,
        },
        working_dir_override: working_dir,
        effort: match effort {
            Some(e) => e,
            None => default_effort,
        },
    }
}

/// What a finished dispatch reports: the subagent's answer, and the
/// session id when its session was kept open.
pub fn task_result_text(text: &str, session_id: Option<&str>) -> (r: String)
    ensures
        session_id matches Some(id) ==> r@ == text@ + "\n\n[session kept open: "@ + id@ + "]"@,
        session_id is None ==> r@ == text@,
{
    let mut t = chars_of(text);
    match session_id {
        Some(id) => {
            push_str_chars(&mut t, "\n\n[session kept open: ");
            push_str_chars(&mut t, id);
            push_str_chars(&mut t, "]");
        },
        None => {},
    }
    string_of(t.as_slice())
}

// ---------------------------------------------------------------------
// Permissions
// ---------------------------------------------------------------------
/// Which tools the agent may call: an optional allow list and an
/// optional deny list of patterns.
#[derive(Debug, Clone, PartialEq, Eq)]
pub struct PermissionsConfig {
    pub allow: Option<Vec<String>>,
    pub deny: Option<Vec<String>>,
}

/// A pattern matches a tool name: `*` matches every name, `prefix*`
/// every name starting with `prefix`, and any other pattern only itself.
pub open spec fn pattern_matches(name: Seq<char>, pattern: Seq<char>) -> bool {
    if pattern == seq!['*'] {
        true
    } else if pattern.len() > 0 && pattern.last() == '*' {
        has_prefix_at(name, 0, pattern.drop_last())
    } else {
        name == pattern
    }
}

/// Some pattern of `patterns` matches `name`.
pub open spec fn any_matches(name: Seq<char>, patterns: Seq<String>) -> bool {
    exists|i: int| 0 <= i < patterns.len() && pattern_matches(name, #[trigger] patterns[i]@)
}

/// A tool is permitted when no deny pattern matches it and, if there is
/// an allow list, some allow pattern does.
pub open spec fn permitted(name: Seq<char>, permissions: PermissionsConfig) -> bool {
    &&& !(permissions.deny is Some && any_matches(name, permissions.deny->0@))
    &&& (permissions.allow is None || any_matches(name, permissions.allow->0@))
}

/// Check if a tool name matches a pattern (exact or wildcard suffix).
pub fn tool_matches(name: &str, pattern: &str) -> (b: bool)
    ensures
        b == pattern_matches(name@, pattern@),
{
    let p = chars_of(pattern);
    let n = chars_of(name);
    if p.len() == 1 && p[0] == '*' {
        assert(p@ =~= seq!['*']);
        return true;
    }
    if p.len() > 0 && p[p.len() - 1] == '*' {
        proof {
            if p@ == seq!['*'] {
                assert(p@.len() == 1);
            }
        }
        let mut prefix = p;
        prefix.pop();
        return starts_with_at(n.as_slice(), 0, prefix.as_slice());
    }
    proof {
        if p@ == seq!['*'] {
            assert(p@.len() == 1);
        }
    }
    str_eq(name, pattern)
}

fn matches_any(name: &str, patterns: &Vec<String>) -> (b: bool)
    ensures
        b == any_matches(name@, patterns@),
{
    let mut i: usize = 0;
    while i < patterns.len()
        invariant
            i <= patterns@.len(),
            forall|j: int| 0 <= j < i ==> !pattern_matches(name@, #[trigger] patterns@[j]@),
        decreases patterns.len() - i,
    {
        if tool_matches(name, patterns[i].as_str()) {
            return true;
        }
        i = i + 1;
    }
    false
}

/// Whether the permission lists let the agent call `tool_name`: the deny
/// list is checked first and always wins; with no allow list everything
/// not denied is permitted.
pub fn check_permission(tool_name: &str, permissions: &PermissionsConfig) -> (b: bool)
    ensures
        b == permitted(tool_name@, *permissions),
{
    match &permissions.deny {
        Some(deny) => {
            if matches_any(tool_name, deny) {
                return false;
            }
        },
        None => {},
    }
    match &permissions.allow {
        Some(allow) => matches_any(tool_name, allow),
        None => true,
    }
}

/// A denied tool is never permitted, whatever the allow list says.
pub proof fn lemma_deny_overrides_allow(name: Seq<char>, permissions: PermissionsConfig, k: int)
    requires
        permissions.deny is Some,
        0 <= k < permissions.deny->0@.len(),
        pattern_matches(name, permissions.deny->0@[k]@),
    ensures
        !permitted(name, permissions),
{
}

} // verus!
