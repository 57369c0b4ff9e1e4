//! TeraToolbox: where it is downloaded from, how its archive is laid out,
//! how its processes are found and stopped, and the commands that start and
//! remove it.
use vstd::prelude::*;
use crate::text::{chars_of, string_of, owned, push_str, replace_all, replace_all_spec, lines_of, lines_spec, views_of, contains_chars, contains_seq, trim_chars, trim_spec, starts_with, starts_with_chars};
use crate::numfmt::{u64_to_string, decimal_spec};

verus! {

broadcast use vstd::string::group_string_axioms;

/// Whether a character is numeric in Unicode's sense (`char::is_numeric`).
pub uninterp spec fn unicode_numeric(c: char) -> bool;

/// `char::is_numeric`. Trusted: the result is a function of the character
/// alone (its Unicode general category), named `unicode_numeric`; nothing
/// more is stated.
#[verifier::external_body]
fn is_numeric(c: char) -> (r: bool)
    ensures
        r == unicode_numeric(c),
{
    c.is_numeric()
}

/// The address of the Toolbox files: the game file server's address with
/// every `/TeraDirect` replaced by `/Neolithic`.
pub fn toolbox_base_url(file_server_url: &str) -> (r: String)
    ensures
        r@ == replace_all_spec(file_server_url@, "/TeraDirect"@, "/Neolithic"@),
{
    let s = chars_of(file_server_url);
    let pat = chars_of("/TeraDirect");
    let rep = chars_of("/Neolithic");
    proof { reveal_strlit("/TeraDirect"); }
    let v = replace_all(s.as_slice(), pat.as_slice(), rep.as_slice());
    string_of(v.as_slice())
}

/// The address of the Toolbox archive, with a time stamp that defeats
/// caches: `{base}/Toolbox.zip?t={timestamp}`.
pub fn toolbox_zip_url(base: &str, timestamp: u64) -> (r: String)
    ensures
        r@ == base@ + "/Toolbox.zip?t="@ + decimal_spec(timestamp as nat),
{
    let mut r = owned(base);
    push_str(&mut r, "/Toolbox.zip?t=");
    let t = u64_to_string(timestamp);
    push_str(&mut r, t.as_str());
    r
}

/// Where an archive entry goes inside the Toolbox folder: its path without
/// the archive's top-level folder. An entry that is the top-level folder
/// itself is skipped (`None`).
pub fn archive_entry_target(components: Vec<String>) -> (r: Option<Vec<String>>)
    ensures
        components@.len() > 1 ==> (r matches Some(v) && v@ == components@.skip(1)),
        components@.len() <= 1 ==> r is None,
{
    if components.len() > 1 {
        let mut v: Vec<String> = Vec::new();
        let mut i: usize = 1;
        while i < components.len()
            invariant
                1 <= i <= components@.len(),
                v@ == components@.subrange(1, i as int),
            decreases components.len() - i,
        {
            v.push(components[i].clone());
            assert(components@.subrange(1, i + 1) == components@.subrange(1, i as int).push(components@[i as int]));
            i = i + 1;
        }
        assert(v@ == components@.skip(1));
        Some(v)
    } else {
        None
    }
}

/// An archive entry whose name ends with `/` is a directory.
pub fn is_directory_entry(name: &str) -> (r: bool)
    ensures
        r == (name@.len() > 0 && name@.last() == '/'),
{
    let cs = chars_of(name);
    cs.len() > 0 && cs[cs.len() - 1] == '/'
}

/// A Toolbox process is running when a line of the process list names the
/// Toolbox folder, or the `\Binaries\Toolbox\` part of a path.
pub open spec fn toolbox_running_spec(process_paths: Seq<char>, toolbox_dir: Seq<char>) -> bool {
    exists|k: int| 0 <= k < lines_spec(process_paths).len() && {
        let line = #[trigger] lines_spec(process_paths)[k];
        contains_seq(line, toolbox_dir) || contains_seq(line, "\\Binaries\\Toolbox\\"@)
    }
}

/// Whether the process list (one executable path per line) shows a running
/// Toolbox.
pub fn toolbox_running(process_paths: &str, toolbox_dir: &str) -> (r: bool)
    ensures
        r == toolbox_running_spec(process_paths@, toolbox_dir@),
{
    let text = chars_of(process_paths);
    let dir = chars_of(toolbox_dir);
    let marker = chars_of("\\Binaries\\Toolbox\\");
    let lines = lines_of(text.as_slice());
    let ghost ls = lines_spec(process_paths@);
    let mut k: usize = 0;
    while k < lines.len()
        invariant
            k <= lines@.len(),
            views_of(lines@) == ls,
            ls == lines_spec(process_paths@),
            dir@ == toolbox_dir@,
            marker@ == "\\Binaries\\Toolbox\\"@,
            forall|j: int| 0 <= j < k ==> !(contains_seq(#[trigger] ls[j], toolbox_dir@)
                || contains_seq(ls[j], "\\Binaries\\Toolbox\\"@)),
        decreases lines.len() - k,
    {
        let line = &lines[k];
        assert(line@ == ls[k as int]);
        if contains_chars(line.as_slice(), dir.as_slice()) || contains_chars(line.as_slice(), marker.as_slice()) {
            assert(lines_spec(process_paths@)[k as int] == line@);
            return true;
        }
        k = k + 1;
    }
    false
}

/// The process id on one line of the process query's output: the line,
/// trimmed, must begin with `ProcessId=`; what follows, trimmed, must be
/// non-empty and all numeric.
pub open spec fn pid_of_line(line: Seq<char>) -> Option<Seq<char>> {
    let t = trim_spec(line);
    let key = "ProcessId="@;
    if starts_with(t, key) {
        let p = trim_spec(t.skip(key.len() as int));
        if p.len() > 0 && (forall|i: int| 0 <= i < p.len() ==> unicode_numeric(#[trigger] p[i])) {
            Some(p)
        } else {
            None
        }
    } else {
        None
    }
}

/// The process ids found in the first `n` lines, in order.
pub open spec fn pids_in_lines(lines: Seq<Seq<char>>, n: int) -> Seq<Seq<char>>
    decreases n,
{
    if n <= 0 {
        Seq::empty()
    } else {
        let prev = pids_in_lines(lines, n - 1);
        match pid_of_line(lines[n - 1]) {
            Some(p) => prev.push(p),
            None => prev,
        }
    }
}

/// The process ids of running Toolbox processes in the process query's
/// output (`ProcessId=1234` lines).
pub fn toolbox_process_ids(output: &str) -> (pids: Vec<String>)
    ensures
        pids@.map_values(|p: String| p@) == pids_in_lines(lines_spec(output@), lines_spec(output@).len() as int),
{
    let text = chars_of(output);
    let lines = lines_of(text.as_slice());
    let key = chars_of("ProcessId=");
    proof { reveal_strlit("ProcessId="); }
    let ghost ls = lines_spec(output@);
    let mut pids: Vec<String> = Vec::new();
    let mut k: usize = 0;
    while k < lines.len()
        invariant
            k <= lines@.len(),
            views_of(lines@) == ls,
            key@ == "ProcessId="@,
            key@.len() == 10,
            pids@.map_values(|p: String| p@) == pids_in_lines(ls, k as int),
        decreases lines.len() - k,
    {
        let line = &lines[k];
        assert(line@ == ls[k as int]);
        let t = trim_chars(line.as_slice());
        let ghost before = pids@;
        if starts_with_chars(t.as_slice(), key.as_slice()) {
            let mut rest: Vec<char> = Vec::new();
            let mut i: usize = key.len();
            while i < t.len()
                invariant
                    key@.len() <= i <= t@.len(),
                    rest@ == t@.subrange(key@.len() as int, i as int),
                decreases t.len() - i,
            {
                rest.push(t[i]);
                assert(t@.subrange(key@.len() as int, i + 1) == t@.subrange(key@.len() as int, i as int).push(t@[i as int]));
                i = i + 1;
            }
            assert(rest@ == t@.skip(10));
            let p = trim_chars(rest.as_slice());
            let mut all = p.len() > 0;
            let mut j: usize = 0;
            while j < p.len()
                invariant
                    j <= p@.len(),
                    all == (p@.len() > 0 && forall|m: int| 0 <= m < j ==> unicode_numeric(#[trigger] p@[m])),
                decreases p.len() - j,
            {
                if !is_numeric(p[j]) {
                    all = false;
                }
                j = j + 1;
            }
            if all {
                pids.push(string_of(p.as_slice()));
                assert(pids@.map_values(|q: String| q@) =~= before.map_values(|q: String| q@).push(p@));
            }
        }
        k = k + 1;
    }
    pids
}

/// The command that ends a process and its children.
pub fn kill_command(pid: &str) -> (c: String)
    ensures
        c@ == "taskkill /F /T /PID "@ + pid@,
{
    let mut c = owned("taskkill /F /T /PID ");
    push_str(&mut c, pid);
    c
}

/// The PowerShell command that starts the Toolbox with elevated rights.
pub fn launch_command(exe_path: &str, working_dir: &str) -> (c: String)
    ensures
        c@ == "Start-Process -FilePath '"@ + exe_path@ + "' -WorkingDirectory '"@ + working_dir@ + "' -Verb RunAs"@,
{
    let mut c = owned("Start-Process -FilePath '");
    push_str(&mut c, exe_path);
    push_str(&mut c, "' -WorkingDirectory '");
    push_str(&mut c, working_dir);
    push_str(&mut c, "' -Verb RunAs");
    c
}

/// The PowerShell command that removes the Toolbox folder by force.
pub fn remove_command(toolbox_dir: &str) -> (c: String)
    ensures
        c@ == "Remove-Item -Path '"@ + toolbox_dir@ + "' -Recurse -Force -ErrorAction Stop"@,
{
    let mut c = owned("Remove-Item -Path '");
    push_str(&mut c, toolbox_dir);
    push_str(&mut c, "' -Recurse -Force -ErrorAction Stop");
    c
}

/// The message shown when the forced removal fails too.
pub fn removal_failed_message(error: &str) -> (m: String)
    ensures
        m@ == "Failed to remove Toolbox folder. Please ensure TeraToolbox is closed and try again.\n\nError: "@ + error@,
{
    let mut m = owned("Failed to remove Toolbox folder. Please ensure TeraToolbox is closed and try again.\n\nError: ");
    push_str(&mut m, error);
    m
}

/// Law: the Toolbox counts as running as soon as any line of the process
/// list, wherever it stands, names the Toolbox folder or a
/// `\\Binaries\\Toolbox\\` path.
pub proof fn law_any_matching_line_means_running(process_paths: Seq<char>, toolbox_dir: Seq<char>, k: int)
    requires
        0 <= k < lines_spec(process_paths).len(),
        contains_seq(lines_spec(process_paths)[k], toolbox_dir)
            || contains_seq(lines_spec(process_paths)[k], "\\Binaries\\Toolbox\\"@),
    ensures
        toolbox_running_spec(process_paths, toolbox_dir),
{
}

/// Law: the Toolbox counts as running only when some line of the process
/// list names the Toolbox folder or a `\\Binaries\\Toolbox\\` path.
pub proof fn law_running_needs_a_matching_line(process_paths: Seq<char>, toolbox_dir: Seq<char>)
    requires
        toolbox_running_spec(process_paths, toolbox_dir),
    ensures
        exists|k: int| 0 <= k < lines_spec(process_paths).len()
            && (contains_seq(#[trigger] lines_spec(process_paths)[k], toolbox_dir)
                || contains_seq(lines_spec(process_paths)[k], "\\Binaries\\Toolbox\\"@)),
{
}

} // verus!
