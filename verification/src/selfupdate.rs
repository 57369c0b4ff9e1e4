//! Replacing the running launcher with a downloaded update.
use vstd::prelude::*;
use crate::text::{chars_of, string_of, owned, push_str};

verus! {

broadcast use vstd::string::group_string_axioms;

/// `s` ends with `p`.
pub open spec fn ends_with(s: Seq<char>, p: Seq<char>) -> bool {
    p.len() <= s.len() && s.skip(s.len() - p.len()) == p
}

/// `s` with every trailing copy of `p` removed (`str::trim_end_matches`).
pub open spec fn strip_suffix_all(s: Seq<char>, p: Seq<char>) -> Seq<char>
    decreases s.len(),
{
    if p.len() > 0 && ends_with(s, p) {
        strip_suffix_all(s.take(s.len() - p.len()), p)
    } else {
        s
    }
}

fn ends_with_at(s: &[char], n: usize, p: &[char]) -> (r: bool)
    requires
        n <= s@.len(),
    ensures
        r == ends_with(s@.take(n as int), p@),
{
    if p.len() > n {
        return false;
    }
    let start = n - p.len();
    let mut k: usize = 0;
    while k < p.len()
        invariant
            k <= p@.len(),
            start + p@.len() == n,
            n <= s@.len(),
            forall|m: int| 0 <= m < k ==> s@[start + m] == p@[m],
        decreases p.len() - k,
    {
        if s[start + k] != p[k] {
            assert(s@.take(n as int).skip(start as int)[k as int] == s@[start + k]);
            return false;
        }
        k = k + 1;
    }
    assert(s@.take(n as int).skip(start as int) =~= p@);
    true
}

/// `str::trim_end_matches` with a string pattern.
pub fn strip_suffix_all_chars(s: &[char], p: &[char]) -> (r: Vec<char>)
    ensures
        r@ == strip_suffix_all(s@, p@),
{
    let mut n: usize = s.len();
    assert(s@.take(n as int) == s@);
    if p.len() > 0 {
        let mut more = true;
        while more
            invariant
                n <= s@.len(),
                p@.len() > 0,
                strip_suffix_all(s@, p@) == strip_suffix_all(s@.take(n as int), p@),
                !more ==> !ends_with(s@.take(n as int), p@),
            decreases n, if more { 1int } else { 0int },
        {
            if ends_with_at(s, n, p) {
                assert(s@.take(n as int).take(n - p@.len()) == s@.take(n - p@.len()));
                n = n - p.len();
            } else {
                more = false;
            }
        }
    }
    let mut r: Vec<char> = Vec::new();
    let mut k: usize = 0;
    while k < n
        invariant
            k <= n,
            n <= s@.len(),
            r@ == s@.take(k as int),
        decreases n - k,
    {
        r.push(s[k]);
        assert(s@.take(k + 1) == s@.take(k as int).push(s@[k as int]));
        k = k + 1;
    }
    r
}

/// The PowerShell script that waits for the launcher to exit, keeps the old
/// executable as `.old`, moves the update in its place, starts it, and
/// cleans up. `exe_name` is the launcher's file name (its `.exe` endings
/// are dropped for the process name).
pub open spec fn update_script_spec(exe_name: Seq<char>, current_exe: Seq<char>, update_path: Seq<char>) -> Seq<char> {
    "\nStart-Sleep -Seconds 2\n\n# Wait for the launcher process to exit\nwhile (Get-Process -Name \""@
        + strip_suffix_all(exe_name, ".exe"@)
        + "\" -ErrorAction SilentlyContinue) {\n    Start-Sleep -Milliseconds 500\n}\n\n# Apply update\n$oldPath = \""@
        + current_exe
        + ".old\"\n$currentPath = \""@
        + current_exe
        + "\"\n$updatePath = \""@
        + update_path
        + "\"\n\nif (Test-Path $oldPath) { Remove-Item -Force $oldPath }\nif (Test-Path $currentPath) { Rename-Item -Path $currentPath -NewName \"$currentPath.old\" -Force }\nMove-Item -Path $updatePath -Destination $currentPath -Force\n\n# Start the updated launcher\nStart-Process -FilePath $currentPath\n\n# Cleanup\nStart-Sleep -Seconds 2\nif (Test-Path $oldPath) { Remove-Item -Force $oldPath }\nRemove-Item -Force $MyInvocation.MyCommand.Path\n"@
}

/// The update script for the given launcher file name, its full path and
/// the downloaded update's path.
pub fn update_script(exe_name: &str, current_exe: &str, update_path: &str) -> (s: String)
    ensures
        s@ == update_script_spec(exe_name@, current_exe@, update_path@),
{
    let name = chars_of(exe_name);
    let ext = chars_of(".exe");
    let stem = strip_suffix_all_chars(name.as_slice(), ext.as_slice());
    let stem = string_of(stem.as_slice());
    let mut s = owned("\nStart-Sleep -Seconds 2\n\n# Wait for the launcher process to exit\nwhile (Get-Process -Name \"");
    push_str(&mut s, stem.as_str());
    push_str(&mut s, "\" -ErrorAction SilentlyContinue) {\n    Start-Sleep -Milliseconds 500\n}\n\n# Apply update\n$oldPath = \"");
    push_str(&mut s, current_exe);
    push_str(&mut s, ".old\"\n$currentPath = \"");
    push_str(&mut s, current_exe);
    push_str(&mut s, "\"\n$updatePath = \"");
    push_str(&mut s, update_path);
    push_str(&mut s, "\"\n\nif (Test-Path $oldPath) { Remove-Item -Force $oldPath }\nif (Test-Path $currentPath) { Rename-Item -Path $currentPath -NewName \"$currentPath.old\" -Force }\nMove-Item -Path $updatePath -Destination $currentPath -Force\n\n# Start the updated launcher\nStart-Process -FilePath $currentPath\n\n# Cleanup\nStart-Sleep -Seconds 2\nif (Test-Path $oldPath) { Remove-Item -Force $oldPath }\nRemove-Item -Force $MyInvocation.MyCommand.Path\n");
    s
}

/// The file name under which a downloaded update is kept next to the
/// running launcher.
pub fn update_file_name() -> (s: String)
    ensures
        s@ == "teralauncher_update.exe"@,
{
    owned("teralauncher_update.exe")
}

} // verus!
