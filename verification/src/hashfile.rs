//! Building the manifest ("hash file") from the game folder: which files
//! are listed, and what each entry says.
use vstd::prelude::*;
use vstd::hash_map::StringHashMap;
use crate::manifest::{FileInfo, DirectoryEntry, HashManifest, parent_dir_spec, parent_dir, count_in_dir, dir_of, dir_intact, file_selected};
use crate::digest::{sha256_hex, hex_lower, sha256_digest};
use crate::plan::size_sum;
use crate::sort::{path_order, sort_by_path};
use crate::text::{views_of, unicode_lowercase};
use crate::text::{chars_of, string_of, owned, push_str, starts_with, starts_with_chars};

verus! {

broadcast use vstd::string::group_string_axioms;

/// A path with every backslash turned into a slash.
pub open spec fn normalize_separators(p: Seq<char>) -> Seq<char> {
    p.map_values(|c: char| if c == '\\' { '/' } else { c })
}

fn normalize_chars(p: &str) -> (v: Vec<char>)
    ensures
        v@ == normalize_separators(p@),
{
    let cs = chars_of(p);
    let mut v: Vec<char> = Vec::new();
    let mut i: usize = 0;
    while i < cs.len()
        invariant
            i <= cs.len(),
            cs@ == p@,
            v@ == normalize_separators(p@).take(i as int),
        decreases cs.len() - i,
    {
        let c = cs[i];
        v.push(if c == '\\' { '/' } else { c });
        assert(normalize_separators(p@).take(i + 1) == normalize_separators(p@).take(i as int).push(
            normalize_separators(p@)[i as int]));
        i = i + 1;
    }
    assert(normalize_separators(p@).take(cs.len() as int) == normalize_separators(p@));
    v
}

/// A path with every backslash turned into a slash.
pub fn normalize_path(p: &str) -> (r: String)
    ensures
        r@ == normalize_separators(p@),
{
    let v = normalize_chars(p);
    string_of(v.as_slice())
}

/// The paths under `S1Game` that the manifest leaves out.
pub open spec fn ignored_paths_spec() -> Seq<Seq<char>> {
    seq![
        "GuildFlagUpload"@,
        "GuildLogoUpload"@,
        "ImageCache"@,
        "Logs"@,
        "Screenshots"@,
        "Config/S1Engine.ini"@,
        "Config/S1Game.ini"@,
        "Config/S1Input.ini"@,
        "Config/S1Lightmass.ini"@,
        "Config/S1Option.ini"@,
        "Config/S1SystemSettings.ini"@,
        "Config/S1TBASettings.ini"@,
        "Config/S1UI.ini"@,
    ]
}

/// The paths under `S1Game` that the manifest leaves out.
pub fn ignored_paths() -> (v: Vec<String>)
    ensures
        v@.len() == ignored_paths_spec().len(),
        forall|k: int| 0 <= k < v@.len() ==> #[trigger] v@[k]@ == ignored_paths_spec()[k],
{
    let mut v: Vec<String> = Vec::new();
    v.push(owned("GuildFlagUpload"));
    v.push(owned("GuildLogoUpload"));
    v.push(owned("ImageCache"));
    v.push(owned("Logs"));
    v.push(owned("Screenshots"));
    v.push(owned("Config/S1Engine.ini"));
    v.push(owned("Config/S1Game.ini"));
    v.push(owned("Config/S1Input.ini"));
    v.push(owned("Config/S1Lightmass.ini"));
    v.push(owned("Config/S1Option.ini"));
    v.push(owned("Config/S1SystemSettings.ini"));
    v.push(owned("Config/S1TBASettings.ini"));
    v.push(owned("Config/S1UI.ini"));
    v
}

/// A file is left out of the manifest when, relative to `S1Game` and with
/// slashes for separators, it lies at the top (no `/` in it) or begins with
/// one of the ignored paths.
pub open spec fn is_ignored_spec(relative: Seq<char>, ignored: Seq<Seq<char>>) -> bool {
    let r = normalize_separators(relative);
    ||| !r.contains('/')
    ||| exists|k: int| 0 <= k < ignored.len() && starts_with(r, ignored[k])
}

/// Whether the file at `relative` (its path relative to `S1Game`) is left
/// out of the manifest.
pub fn is_ignored(relative: &str, ignored: &Vec<String>) -> (r: bool)
    ensures
        r == is_ignored_spec(relative@, ignored@.map_values(|s: String| s@)),
{
    let rel = normalize_chars(relative);
    let ghost ig = ignored@.map_values(|s: String| s@);
    let mut has_slash = false;
    let mut i: usize = 0;
    while i < rel.len()
        invariant
            i <= rel.len(),
            has_slash == exists|k: int| 0 <= k < i && rel@[k] == '/',
        decreases rel.len() - i,
    {
        if rel[i] == '/' {
            has_slash = true;
        }
        i = i + 1;
    }
    if !has_slash {
        return true;
    }
    let mut j: usize = 0;
    while j < ignored.len()
        invariant
            j <= ignored@.len(),
            rel@ == normalize_separators(relative@),
            ig == ignored@.map_values(|s: String| s@),
            forall|k: int| 0 <= k < j ==> !starts_with(rel@, ig[k]),
        decreases ignored.len() - j,
    {
        let p = chars_of(ignored[j].as_str());
        if starts_with_chars(rel.as_slice(), p.as_slice()) {
            assert(starts_with(rel@, ig[j as int]));
            return true;
        }
        j = j + 1;
    }
    false
}

/// The manifest path of a file of `S1Game`: `S1Game/` and its path relative
/// to `S1Game`, with slashes.
pub open spec fn manifest_path_spec(relative: Seq<char>) -> Seq<char> {
    "S1Game/"@ + normalize_separators(relative)
}

/// The download address of a manifest path: the file server, `/`, the path.
pub open spec fn file_url_spec(server: Seq<char>, path: Seq<char>) -> Seq<char> {
    server + "/"@ + path
}

/// The manifest entry of a file of `S1Game`, given its path relative to
/// `S1Game`, its contents, and the file server's address.
pub fn hash_file_entry(relative: &str, contents: &[u8], file_server_url: &str) -> (f: FileInfo)
    ensures
        f.path@ == manifest_path_spec(relative@),
        f.hash@ == hex_lower(sha256_digest(contents@)),
        f.size == contents@.len(),
        f.url@ == file_url_spec(file_server_url@, manifest_path_spec(relative@)),
{
    let mut path = owned("S1Game/");
    let rel = normalize_path(relative);
    push_str(&mut path, rel.as_str());
    let hash = sha256_hex(contents);
    let mut url = owned(file_server_url);
    push_str(&mut url, "/");
    push_str(&mut url, path.as_str());
    FileInfo { path, hash, size: contents.len() as u64, url }
}

/// A directory's summary in the manifest: its path, a digest over its
/// files' hashes, how many files it has and their total size.
pub struct DirectoryInfo {
    pub path: String,
    pub hash: String,
    pub file_count: usize,
    pub total_size: u64,
}

/// The directories of the first `n` files, each once, in the order in which
/// they first occur.
pub open spec fn dirs_first_seen(files: Seq<FileInfo>, n: int) -> Seq<Seq<char>>
    decreases n,
{
    if n <= 0 {
        Seq::empty()
    } else {
        let prev = dirs_first_seen(files, n - 1);
        let d = parent_dir_spec(files[n - 1].path@);
        if prev.contains(d) { prev } else { prev.push(d) }
    }
}

/// The positions, among the first `n` files, of the files of directory `d`,
/// in increasing order.
pub open spec fn dir_members(files: Seq<FileInfo>, d: Seq<char>, n: int) -> Seq<usize>
    decreases n,
{
    if n <= 0 {
        Seq::empty()
    } else {
        let prev = dir_members(files, d, n - 1);
        if parent_dir_spec(files[n - 1].path@) == d { prev.push((n - 1) as usize) } else { prev }
    }
}

/// The total listed size of the files at the given positions.
pub open spec fn sizes_at(files: Seq<FileInfo>, pos: Seq<usize>) -> nat
    decreases pos.len(),
{
    if pos.len() == 0 {
        0
    } else {
        sizes_at(files, pos.drop_last()) + files[pos.last() as int].size as nat
    }
}

/// The UTF-8 bytes of the hashes of the files at the given positions, one
/// after the other.
pub open spec fn hash_bytes_at(files: Seq<FileInfo>, pos: Seq<usize>) -> Seq<u8>
    decreases pos.len(),
{
    if pos.len() == 0 {
        Seq::empty()
    } else {
        hash_bytes_at(files, pos.drop_last()) + vstd::utf8::encode_utf8(files[pos.last() as int].hash@)
    }
}

/// The paths of the files, by position.
pub open spec fn file_paths(files: Seq<FileInfo>) -> Seq<Seq<char>> {
    files.map_values(|f: FileInfo| f.path@)
}

/// The directory digest: the SHA-256 digest, in lowercase hexadecimal, of
/// the hashes of the directory's files taken in the order of their paths.
pub open spec fn dir_hash_spec(files: Seq<FileInfo>, d: Seq<char>) -> Seq<char> {
    let ms = dir_members(files, d, files.len() as int);
    hex_lower(sha256_digest(hash_bytes_at(files, ms.sort_by(path_order(file_paths(files))))))
}

proof fn lemma_members_sum_bound(files: Seq<FileInfo>, d: Seq<char>, n: int)
    requires
        0 <= n <= files.len(),
        files.len() <= usize::MAX,
    ensures
        sizes_at(files, dir_members(files, d, n)) <= size_sum(files, n),
    decreases n,
{
    if n > 0 {
        lemma_members_sum_bound(files, d, n - 1);
        let prev = dir_members(files, d, n - 1);
        if parent_dir_spec(files[n - 1].path@) == d {
            assert(prev.push((n - 1) as usize).drop_last() == prev);
            assert(prev.push((n - 1) as usize).last() == n - 1);
        }
    }
}

proof fn lemma_members_below(files: Seq<FileInfo>, d: Seq<char>, n: int)
    requires
        0 <= n <= usize::MAX,
    ensures
        dir_members(files, d, n).len() <= n,
        forall|k: int| 0 <= k < dir_members(files, d, n).len() ==> #[trigger] dir_members(files, d, n)[k] < n,
    decreases n,
{
    if n > 0 {
        lemma_members_below(files, d, n - 1);
    }
}

proof fn lemma_dirs_distinct(files: Seq<FileInfo>, n: int)
    requires
        0 <= n,
    ensures
        dirs_first_seen(files, n).no_duplicates(),
    decreases n,
{
    if n > 0 {
        lemma_dirs_distinct(files, n - 1);
    }
}

/// The summaries of the directories of the manifest's files, in the order
/// in which the directories first occur.
pub fn directory_summaries(files: &Vec<FileInfo>) -> (ds: Vec<DirectoryInfo>)
    requires
        size_sum(files@, files@.len() as int) <= u64::MAX,
    ensures
        ({
            let dirs = dirs_first_seen(files@, files@.len() as int);
            &&& ds@.len() == dirs.len()
            &&& forall|k: int| 0 <= k < ds@.len() ==> {
                let d = #[trigger] dirs[k];
                let ms = dir_members(files@, d, files@.len() as int);
                &&& ds@[k].path@ == d
                &&& ds@[k].file_count == ms.len()
                &&& ds@[k].total_size == sizes_at(files@, ms)
                &&& ds@[k].hash@ == dir_hash_spec(files@, d)
            }
        }),
{
    let n = files.len();
    let ghost fs = files@;
    // Paths as characters, and each file's directory.
    let mut paths: Vec<Vec<char>> = Vec::new();
    let mut i: usize = 0;
    while i < n
        invariant
            i <= n,
            n == fs.len(),
            fs == files@,
            paths@.len() == i,
            forall|k: int| 0 <= k < i ==> #[trigger] paths@[k]@ == fs[k].path@,
        decreases n - i,
    {
        paths.push(chars_of(files[i].path.as_str()));
        i = i + 1;
    }
    proof {
        assert(views_of(paths@) =~= file_paths(fs));
    }
    // Directories in order of first occurrence, and each file's slot.
    let mut slot_of: StringHashMap<usize> = StringHashMap::new();
    let mut dir_list: Vec<String> = Vec::new();
    let mut file_slot: Vec<usize> = Vec::new();
    let mut i: usize = 0;
    while i < n
        invariant
            i <= n,
            n == fs.len(),
            fs == files@,
            file_slot@.len() == i,
            dir_list@.len() == dirs_first_seen(fs, i as int).len(),
            forall|k: int| 0 <= k < dir_list@.len() ==> #[trigger] dir_list@[k]@ == dirs_first_seen(fs, i as int)[k],
            forall|d: Seq<char>| #[trigger] slot_of@.contains_key(d) <==> dirs_first_seen(fs, i as int).contains(d),
            forall|d: Seq<char>| #[trigger] slot_of@.contains_key(d) ==> slot_of@[d] < dir_list@.len() && dir_list@[slot_of@[d] as int]@ == d,
            forall|k: int| 0 <= k < i ==> #[trigger] file_slot@[k] < dir_list@.len()
                && dir_list@[file_slot@[k] as int]@ == parent_dir_spec(fs[k].path@),
        decreases n - i,
    {
        let d = parent_dir(files[i].path.as_str());
        let ghost prev = dirs_first_seen(fs, i as int);
        let ghost dv = d@;
        let slot = match slot_of.get(d.as_str()) {
            Some(k) => *k,
            None => {
                let k = dir_list.len();
                slot_of.insert(d.clone(), k);
                dir_list.push(d);
                proof {
                    assert(dirs_first_seen(fs, i + 1) == prev.push(dv));
                }
                k
            },
        };
        file_slot.push(slot);
        proof {
            let next = dirs_first_seen(fs, i + 1);
            if prev.contains(dv) {
                assert(next == prev);
            }
            assert forall|d2: Seq<char>| #[trigger] slot_of@.contains_key(d2) <==> next.contains(d2) by {
                if next.contains(d2) && d2 != dv {
                    let k = choose|k: int| 0 <= k < next.len() && next[k] == d2;
                    if !prev.contains(dv) {
                        assert(k < prev.len());
                    }
                    assert(prev.contains(d2));
                }
                if slot_of@.contains_key(d2) && d2 != dv {
                    assert(prev.contains(d2));
                    let k = choose|k: int| 0 <= k < prev.len() && prev[k] == d2;
                    assert(next[k] == d2);
                }
                if d2 == dv {
                    if !prev.contains(dv) {
                        assert(next[prev.len() as int] == dv);
                    }
                }
            }
        }
        i = i + 1;
    }
    // One summary per directory.
    let ghost dirs = dirs_first_seen(fs, n as int);
    proof {
        lemma_dirs_distinct(fs, n as int);
    }
    let mut ds: Vec<DirectoryInfo> = Vec::new();
    let mut k: usize = 0;
    while k < dir_list.len()
        invariant
            k <= dir_list@.len(),
            n == fs.len(),
            fs == files@,
            size_sum(fs, n as int) <= u64::MAX,
            views_of(paths@) == file_paths(fs),
            paths@.len() == n,
            file_slot@.len() == n,
            dirs == dirs_first_seen(fs, n as int),
            dir_list@.len() == dirs.len(),
            forall|j: int| 0 <= j < dir_list@.len() ==> #[trigger] dir_list@[j]@ == dirs[j],
            forall|j: int| 0 <= j < n ==> #[trigger] file_slot@[j] < dir_list@.len()
                && dir_list@[file_slot@[j] as int]@ == parent_dir_spec(fs[j].path@),
            forall|a: int, b: int| 0 <= a < b < dir_list@.len() ==> dir_list@[a]@ != dir_list@[b]@,
            ds@.len() == k,
            forall|j: int| 0 <= j < k ==> {
                let d = #[trigger] dirs[j];
                let ms = dir_members(fs, d, n as int);
                &&& ds@[j].path@ == d
                &&& ds@[j].file_count == ms.len()
                &&& ds@[j].total_size == sizes_at(fs, ms)
                &&& ds@[j].hash@ == dir_hash_spec(fs, d)
            },
        decreases dir_list.len() - k,
    {
        let ghost dv = dir_list@[k as int]@;
        // The directory's files, in order.
        let mut members: Vec<usize> = Vec::new();
        let mut total: u64 = 0;
        let mut j: usize = 0;
        while j < n
            invariant
                j <= n,
                n == fs.len(),
                fs == files@,
                k < dir_list@.len(),
                dv == dir_list@[k as int]@,
                file_slot@.len() == n,
                forall|t: int| 0 <= t < n ==> #[trigger] file_slot@[t] < dir_list@.len()
                    && dir_list@[file_slot@[t] as int]@ == parent_dir_spec(fs[t].path@),
                forall|a: int, b: int| 0 <= a < b < dir_list@.len() ==> dir_list@[a]@ != dir_list@[b]@,
                members@ == dir_members(fs, dv, j as int),
                total == sizes_at(fs, members@),
                size_sum(fs, n as int) <= u64::MAX,
            decreases n - j,
        {
            proof {
                let sj = file_slot@[j as int];
                assert((sj == k) == (parent_dir_spec(fs[j as int].path@) == dv)) by {
                    if sj != k && parent_dir_spec(fs[j as int].path@) == dv {
                        if sj < k {
                            assert(dir_list@[sj as int]@ != dir_list@[k as int]@);
                        } else {
                            assert(dir_list@[k as int]@ != dir_list@[sj as int]@);
                        }
                    }
                }
            }
            if file_slot[j] == k {
                proof {
                    lemma_members_sum_bound(fs, dv, j + 1);
                    crate::plan::lemma_size_sum_monotone(fs, j + 1, n as int);
                    assert(members@.push(j).drop_last() == members@);
                }
                total = total + files[j].size;
                members.push(j);
            }
            j = j + 1;
        }
        proof {
            lemma_members_below(fs, dv, n as int);
        }
        let sorted = sort_by_path(&paths, &members);
        assert forall|q: int| 0 <= q < sorted@.len() implies #[trigger] sorted@[q] < n by {
            assert(members@.contains(sorted@[q]));
        }
        // The hashes of the directory's files, in path order.
        let mut bytes: Vec<u8> = Vec::new();
        let mut t: usize = 0;
        while t < sorted.len()
            invariant
                t <= sorted@.len(),
                n == fs.len(),
                fs == files@,
                forall|q: int| 0 <= q < sorted@.len() ==> #[trigger] sorted@[q] < n,
                bytes@ == hash_bytes_at(fs, sorted@.take(t as int)),
            decreases sorted.len() - t,
        {
            let h = files[sorted[t]].hash.as_str().as_bytes();
            let mut q: usize = 0;
            let ghost before = bytes@;
            while q < h.len()
                invariant
                    q <= h@.len(),
                    bytes@ == before + h@.take(q as int),
                decreases h.len() - q,
            {
                bytes.push(h[q]);
                assert(h@.take(q + 1) == h@.take(q as int).push(h@[q as int]));
                q = q + 1;
            }
            assert(h@.take(h@.len() as int) == h@);
            assert(sorted@.take(t + 1).drop_last() == sorted@.take(t as int));
            t = t + 1;
        }
        proof {
            assert(sorted@.take(sorted@.len() as int) == sorted@);
        }
        let hash = sha256_hex(bytes.as_slice());
        let count = members.len();
        ds.push(DirectoryInfo { path: dir_list[k].clone(), hash, file_count: count, total_size: total });
        k = k + 1;
    }
    ds
}

/// The number of files, among the first `n`, of the directories `dirs`.
pub open spec fn member_count_total(files: Seq<FileInfo>, dirs: Seq<Seq<char>>, n: int) -> nat
    decreases dirs.len(),
{
    if dirs.len() == 0 {
        0
    } else {
        member_count_total(files, dirs.drop_last(), n) + dir_members(files, dirs.last(), n).len()
    }
}

/// The total listed size of the files, among the first `n`, of the
/// directories `dirs`.
pub open spec fn member_size_total(files: Seq<FileInfo>, dirs: Seq<Seq<char>>, n: int) -> nat
    decreases dirs.len(),
{
    if dirs.len() == 0 {
        0
    } else {
        member_size_total(files, dirs.drop_last(), n) + sizes_at(files, dir_members(files, dirs.last(), n))
    }
}

proof fn lemma_unseen_dir_has_no_members(files: Seq<FileInfo>, d: Seq<char>, n: int)
    requires
        0 <= n,
        !dirs_first_seen(files, n).contains(d),
    ensures
        dir_members(files, d, n).len() == 0,
    decreases n,
{
    if n > 0 {
        let prev = dirs_first_seen(files, n - 1);
        let d0 = parent_dir_spec(files[n - 1].path@);
        if prev.contains(d) {
            let k = choose|k: int| 0 <= k < prev.len() && prev[k] == d;
            if !prev.contains(d0) {
                assert(dirs_first_seen(files, n)[k] == d);
            }
        }
        if d0 == d {
            if prev.contains(d0) {
            } else {
                assert(dirs_first_seen(files, n)[prev.len() as int] == d);
            }
        }
        lemma_unseen_dir_has_no_members(files, d, n - 1);
    }
}

proof fn lemma_totals_step(files: Seq<FileInfo>, dirs: Seq<Seq<char>>, n: int)
    requires
        1 <= n <= files.len(),
        files.len() <= usize::MAX,
        dirs.no_duplicates(),
    ensures
        member_count_total(files, dirs, n) == member_count_total(files, dirs, n - 1)
            + (if dirs.contains(parent_dir_spec(files[n - 1].path@)) { 1nat } else { 0nat }),
        member_size_total(files, dirs, n) == member_size_total(files, dirs, n - 1)
            + (if dirs.contains(parent_dir_spec(files[n - 1].path@)) { files[n - 1].size as nat } else { 0nat }),
    decreases dirs.len(),
{
    if dirs.len() > 0 {
        let rest = dirs.drop_last();
        let d = dirs.last();
        let d0 = parent_dir_spec(files[n - 1].path@);
        assert(rest.no_duplicates());
        lemma_totals_step(files, rest, n);
        let prev = dir_members(files, d, n - 1);
        if d == d0 {
            assert(prev.push((n - 1) as usize).drop_last() == prev);
            assert(!rest.contains(d0)) by {
                if rest.contains(d0) {
                    let k = choose|k: int| 0 <= k < rest.len() && rest[k] == d0;
                    assert(dirs[k] == dirs[dirs.len() - 1]);
                }
            }
            assert(dirs.contains(d0)) by {
                assert(dirs[dirs.len() - 1] == d0);
            }
        } else {
            assert(dirs.contains(d0) == rest.contains(d0)) by {
                if dirs.contains(d0) {
                    let k = choose|k: int| 0 <= k < dirs.len() && dirs[k] == d0;
                    assert(rest[k] == d0);
                }
                if rest.contains(d0) {
                    let k = choose|k: int| 0 <= k < rest.len() && rest[k] == d0;
                    assert(dirs[k] == d0);
                }
            }
        }
    }
}

proof fn lemma_totals_cover(files: Seq<FileInfo>, n: int)
    requires
        0 <= n <= files.len(),
        files.len() <= usize::MAX,
    ensures
        member_count_total(files, dirs_first_seen(files, n), n) == n,
        member_size_total(files, dirs_first_seen(files, n), n) == size_sum(files, n),
    decreases n,
{
    if n > 0 {
        lemma_totals_cover(files, n - 1);
        let prev = dirs_first_seen(files, n - 1);
        let d0 = parent_dir_spec(files[n - 1].path@);
        lemma_dirs_distinct(files, n);
        lemma_dirs_distinct(files, n - 1);
        if prev.contains(d0) {
            lemma_totals_step(files, prev, n);
        } else {
            let next = prev.push(d0);
            lemma_totals_step(files, prev, n);
            assert(next.drop_last() == prev);
            lemma_unseen_dir_has_no_members(files, d0, n - 1);
            let ms = dir_members(files, d0, n - 1);
            assert(ms.push((n - 1) as usize).drop_last() == ms);
            assert(ms.push((n - 1) as usize).last() == n - 1);
            assert(dir_members(files, d0, n) == ms.push((n - 1) as usize));
            assert(sizes_at(files, ms) == 0);
            assert(sizes_at(files, ms.push((n - 1) as usize)) == files[n - 1].size);
            assert(member_size_total(files, next, n) == member_size_total(files, prev, n)
                + sizes_at(files, dir_members(files, d0, n)));
        }
    }
}

/// Law: the directory summaries account for every file exactly once: over
/// the summarized directories, the file counts add up to the number of
/// files and the sizes to their total size.
pub proof fn law_directory_summaries_cover_files(files: Seq<FileInfo>)
    requires
        files.len() <= usize::MAX,
    ensures
        member_count_total(files, dirs_first_seen(files, files.len() as int), files.len() as int) == files.len(),
        member_size_total(files, dirs_first_seen(files, files.len() as int), files.len() as int)
            == size_sum(files, files.len() as int),
{
    lemma_totals_cover(files, files.len() as int);
}

/// Law: a manifest entry made from a file's contents accepts a download of
/// those same contents (the check of `verify_download` passes).
pub proof fn law_fresh_entry_accepts_its_contents(relative: Seq<char>, contents: Seq<u8>, f: FileInfo)
    requires
        f.path@ == manifest_path_spec(relative),
        f.hash@ == hex_lower(sha256_digest(contents)),
    ensures
        unicode_lowercase(hex_lower(sha256_digest(contents))) == unicode_lowercase(f.hash@),
{
}

proof fn lemma_count_is_member_count(m: HashManifest, d: Seq<char>, n: int)
    requires
        0 <= n <= m.files@.len(),
    ensures
        count_in_dir(m, d, n) == dir_members(m.files@, d, n).len(),
    decreases n,
{
    if n > 0 {
        lemma_count_is_member_count(m, d, n - 1);
    }
}

/// Law: a manifest that lists the directory summaries of its own files
/// (as `directory_summaries` makes them), checked against a game folder
/// whose files all still have their listed sizes, picks no file for a
/// closer look, so nothing is downloaded.
pub proof fn law_fresh_manifest_selects_nothing(m: HashManifest, sizes: Seq<Option<u64>>, i: int)
    requires
        m.directories matches Some(ds) && {
            let n = m.files@.len() as int;
            let dirs = dirs_first_seen(m.files@, n);
            &&& ds@.len() == dirs.len()
            &&& forall|k: int| 0 <= k < ds@.len() ==> {
                &&& #[trigger] ds@[k].path@ == dirs[k]
                &&& ds@[k].file_count == dir_members(m.files@, dirs[k], n).len()
            }
        },
        sizes.len() == m.files@.len(),
        forall|j: int| 0 <= j < sizes.len() ==> #[trigger] sizes[j] == Some(m.files@[j].size),
        0 <= i < m.files@.len(),
    ensures
        !file_selected(m, sizes, i),
{
    let ds = m.directories->0;
    let n = m.files@.len() as int;
    let d = dir_of(m, i);
    lemma_count_is_member_count(m, d, n);
    assert forall|j: int| 0 <= j < ds@.len() && ds@[j].path@ == d implies dir_intact(m, sizes, d, ds@[j].file_count) by {
        assert(ds@[j].path@ == dirs_first_seen(m.files@, n)[j]);
    }
}

/// Law: a file whose path relative to `S1Game`, with slashes, begins with
/// any entry of the ignored list, wherever that entry stands in the list,
/// is left out of the manifest.
pub proof fn law_ignored_prefix_is_ignored(relative: Seq<char>, ignored: Seq<Seq<char>>, k: int)
    requires
        0 <= k < ignored.len(),
        starts_with(normalize_separators(relative), ignored[k]),
    ensures
        is_ignored_spec(relative, ignored),
{
}

/// Law: a file directly in `S1Game` (no separator in its relative path) is
/// left out of the manifest.
pub proof fn law_top_level_file_is_ignored(relative: Seq<char>, ignored: Seq<Seq<char>>)
    requires
        forall|i: int| 0 <= i < relative.len() ==> relative[i] != '/' && relative[i] != '\\',
    ensures
        is_ignored_spec(relative, ignored),
{
    let r = normalize_separators(relative);
    if r.contains('/') {
        let i = choose|i: int| 0 <= i < r.len() && r[i] == '/';
        assert(relative[i] != '/' && relative[i] != '\\');
    }
}

} // verus!
