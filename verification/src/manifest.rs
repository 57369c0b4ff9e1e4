//! The game-file manifest ("hash file") and the choice of which files need a
//! closer look before patching.
use vstd::prelude::*;
use crate::plan::opt_chars;
use vstd::hash_map::StringHashMap;
use crate::text::{chars_of, string_of, owned, rfind_char, last_index_of, lemma_last_index_of, strip_prefix_all, strip_prefix_all_chars};

verus! {

broadcast use vstd::hash_map::group_hash_map_axioms;

/// One game file as the server lists it.
pub struct FileInfo {
    pub path: String,
    pub hash: String,
    pub size: u64,
    pub url: String,
}

/// One directory entry of the server's manifest: its path and how many
/// files it should hold.
pub struct DirectoryEntry {
    pub path: String,
    pub file_count: usize,
}

/// The server's manifest: the files, and optionally the directories.
pub struct HashManifest {
    pub files: Vec<FileInfo>,
    pub directories: Option<Vec<DirectoryEntry>>,
}

/// The directory a manifest path belongs to: everything before its last
/// `/`, or `S1Game` for a path without one.
pub open spec fn parent_dir_spec(p: Seq<char>) -> Seq<char> {
    let k = last_index_of(p, '/');
    if k >= 0 {
        p.take(k)
    } else {
        "S1Game"@
    }
}

/// Exec form of `parent_dir_spec`.
pub fn parent_dir(path: &str) -> (d: String)
    ensures
        d@ == parent_dir_spec(path@),
{
    let cs = chars_of(path);
    match rfind_char(cs.as_slice(), '/') {
        Some(k) => {
            proof { lemma_last_index_of(path@, '/'); }
            let mut prefix: Vec<char> = Vec::new();
            let mut i: usize = 0;
            while i < k
                invariant
                    i <= k,
                    k < cs.len(),
                    prefix@ == cs@.take(i as int),
                decreases k - i,
            {
                prefix.push(cs[i]);
                assert(cs@.take(i as int).push(cs@[i as int]) == cs@.take(i + 1));
                i = i + 1;
            }
            string_of(prefix.as_slice())
        },
        None => owned("S1Game"),
    }
}

/// The directory of the manifest's `i`-th file.
pub open spec fn dir_of(m: HashManifest, i: int) -> Seq<char> {
    parent_dir_spec(m.files@[i].path@)
}

/// How many of the first `n` files of the manifest lie in directory `d`.
pub open spec fn count_in_dir(m: HashManifest, d: Seq<char>, n: int) -> nat
    decreases n,
{
    if n <= 0 {
        0
    } else {
        count_in_dir(m, d, n - 1) + if dir_of(m, n - 1) == d { 1nat } else { 0nat }
    }
}

/// The local copy of file `i` exists with the size the manifest gives it.
pub open spec fn size_matches(m: HashManifest, sizes: Seq<Option<u64>>, i: int) -> bool {
    sizes[i] == Some(m.files@[i].size)
}

/// Directory `d` is intact: every listed file of it is present with the
/// listed size, and it has exactly `expected` files.
pub open spec fn dir_intact(m: HashManifest, sizes: Seq<Option<u64>>, d: Seq<char>, expected: usize) -> bool {
    &&& forall|i: int| 0 <= i < m.files@.len() && dir_of(m, i) == d ==> size_matches(m, sizes, i)
    &&& count_in_dir(m, d, m.files@.len() as int) == expected
}

/// Directory `d` must be checked file by file: the manifest has no directory
/// list, or one of its entries for `d` finds `d` not intact.
pub open spec fn dir_needs_check(m: HashManifest, sizes: Seq<Option<u64>>, d: Seq<char>) -> bool {
    match m.directories {
        None => true,
        Some(ds) => exists|j: int|
            0 <= j < ds@.len() && ds@[j].path@ == d && !dir_intact(m, sizes, d, ds@[j].file_count),
    }
}

/// File `i` is to be compared with its local copy.
pub open spec fn file_selected(m: HashManifest, sizes: Seq<Option<u64>>, i: int) -> bool {
    dir_needs_check(m, sizes, dir_of(m, i))
}


proof fn lemma_count_step(m: HashManifest, d: Seq<char>, n: int)
    requires
        n >= 0,
    ensures
        count_in_dir(m, d, n + 1) == count_in_dir(m, d, n) + if dir_of(m, n) == d { 1nat } else { 0nat },
{
}

proof fn lemma_count_zero(m: HashManifest, d: Seq<char>, n: int)
    requires
        forall|i: int| 0 <= i < n ==> dir_of(m, i) != d,
    ensures
        count_in_dir(m, d, n) == 0,
    decreases n,
{
    if n > 0 {
        lemma_count_zero(m, d, n - 1);
    }
}

proof fn lemma_count_bound(m: HashManifest, d: Seq<char>, n: int)
    requires
        n >= 0,
    ensures
        count_in_dir(m, d, n) <= n,
    decreases n,
{
    if n > 0 {
        lemma_count_bound(m, d, n - 1);
    }
}

/// The directories of all manifest files, in file order.
fn file_dirs(m: &HashManifest) -> (ds: Vec<String>)
    ensures
        ds@.len() == m.files@.len(),
        forall|i: int| 0 <= i < ds@.len() ==> #[trigger] ds@[i]@ == dir_of(*m, i),
{
    let mut ds: Vec<String> = Vec::new();
    let mut i: usize = 0;
    while i < m.files.len()
        invariant
            i <= m.files@.len(),
            ds@.len() == i,
            forall|k: int| 0 <= k < i ==> #[trigger] ds@[k]@ == dir_of(*m, k),
        decreases m.files.len() - i,
    {
        let d = parent_dir(m.files[i].path.as_str());
        ds.push(d);
        i = i + 1;
    }
    ds
}

/// Picks the manifest files that must be compared with their local copies.
///
/// `local_sizes[i]` is the size of the local copy of file `i`, or `None`
/// where it is missing or its metadata cannot be read. Where the manifest
/// lists directories, a directory whose files are all present with the
/// listed sizes, and whose file count matches its entry, is taken as
/// verified and its files are skipped; files of directories that no entry
/// names are skipped too. Without a directory list every file is picked.
/// The result holds the indices of the picked files in increasing order.
pub fn select_files_to_check(m: &HashManifest, local_sizes: &Vec<Option<u64>>) -> (r: Vec<usize>)
    requires
        local_sizes@.len() == m.files@.len(),
    ensures
        forall|k: int| 0 <= k < r@.len() ==> #[trigger] r@[k] < m.files@.len(),
        forall|k: int, l: int| 0 <= k < l < r@.len() ==> r@[k] < r@[l],
        forall|k: int| 0 <= k < r@.len() ==> file_selected(*m, local_sizes@, #[trigger] r@[k] as int),
        forall|i: int| 0 <= i < m.files@.len() && file_selected(*m, local_sizes@, i) ==>
            exists|k: int| 0 <= k < r@.len() && r@[k] == i,
{
    let n = m.files.len();
    let dirs = file_dirs(m);
    let ghost sizes = local_sizes@;
    let mut r: Vec<usize> = Vec::new();
    match &m.directories {
        None => {
            let mut i: usize = 0;
            while i < n
                invariant
                    i <= n,
                    n == m.files@.len(),
                    m.directories is None,
                    r@.len() == i,
                    forall|k: int| 0 <= k < i ==> r@[k] == k,
                decreases n - i,
            {
                r.push(i);
                i = i + 1;
            }
            assert forall|i: int| 0 <= i < m.files@.len() && file_selected(*m, sizes, i) implies
                exists|k: int| 0 <= k < r@.len() && r@[k] == i by {
                assert(r@[i] == i);
            }
            r
        },
        Some(entries) => {
            // Per directory: how many files it has, and whether all are present with the listed size.
            let mut slot_of: StringHashMap<usize> = StringHashMap::new();
            let mut counts: Vec<usize> = Vec::new();
            let mut intact: Vec<bool> = Vec::new();
            let mut i: usize = 0;
            while i < n
                invariant
                    i <= n,
                    n == m.files@.len(),
                    dirs@.len() == n,
                    sizes == local_sizes@,
                    sizes.len() == n,
                    forall|k: int| 0 <= k < n ==> #[trigger] dirs@[k]@ == dir_of(*m, k),
                    counts@.len() == intact@.len(),
                    forall|d: Seq<char>| #[trigger] slot_of@.contains_key(d) ==> {
                        &&& slot_of@[d] < counts@.len()
                        &&& counts@[slot_of@[d] as int] == count_in_dir(*m, d, i as int)
                        &&& intact@[slot_of@[d] as int] == (forall|k: int| 0 <= k < i && dir_of(*m, k) == d ==> size_matches(*m, sizes, k))
                    },
                    forall|d: Seq<char>| !(#[trigger] slot_of@.contains_key(d)) ==>
                        forall|k: int| 0 <= k < i ==> dir_of(*m, k) != d,
                    forall|e1: Seq<char>, e2: Seq<char>|
                        #[trigger] slot_of@.contains_key(e1) && #[trigger] slot_of@.contains_key(e2) && e1 != e2
                        ==> slot_of@[e1] != slot_of@[e2],
                decreases n - i,
            {
                let ok = match local_sizes[i] {
                    Some(s) => s == m.files[i].size,
                    None => false,
                };
                assert(ok == size_matches(*m, sizes, i as int));
                let d = &dirs[i];
                let ghost dv = d@;
                let ghost old_slot = slot_of@;
                let ghost old_counts = counts@;
                let ghost old_intact = intact@;
                proof { lemma_count_bound(*m, dv, i as int); }
                match slot_of.get(d.as_str()) {
                    Some(slot) => {
                        let slot = *slot;
                        let c = counts[slot] + 1;
                        let b = intact[slot] && ok;
                        counts.set(slot, c);
                        intact.set(slot, b);
                    },
                    None => {
                        proof { lemma_count_zero(*m, dv, i as int); }
                        slot_of.insert(d.clone(), counts.len());
                        counts.push(1);
                        intact.push(ok);
                    },
                }
                proof {
                    assert forall|e: Seq<char>| #[trigger] slot_of@.contains_key(e) implies {
                        &&& slot_of@[e] < counts@.len()
                        &&& counts@[slot_of@[e] as int] == count_in_dir(*m, e, i + 1)
                        &&& intact@[slot_of@[e] as int] == (forall|k: int| 0 <= k < i + 1 && dir_of(*m, k) == e ==> size_matches(*m, sizes, k))
                    } by {
                        lemma_count_step(*m, e, i as int);
                        if e != dv {
                            assert(old_slot.contains_key(e));
                            assert(slot_of@[e] == old_slot[e]);
                            assert(slot_of@[e] != slot_of@[dv]);
                            assert(counts@[slot_of@[e] as int] == old_counts[old_slot[e] as int]);
                            assert(intact@[slot_of@[e] as int] == old_intact[old_slot[e] as int]);
                            assert((forall|k: int| 0 <= k < i + 1 && dir_of(*m, k) == e ==> size_matches(*m, sizes, k))
                                == (forall|k: int| 0 <= k < i && dir_of(*m, k) == e ==> size_matches(*m, sizes, k)));
                        } else {
                            if old_slot.contains_key(e) {
                                assert(intact@[slot_of@[e] as int] == (old_intact[old_slot[e] as int] && ok));
                            } else {
                                assert(intact@[slot_of@[e] as int] == ok);
                            }
                            assert((forall|k: int| 0 <= k < i + 1 && dir_of(*m, k) == e ==> size_matches(*m, sizes, k))
                                == ((forall|k: int| 0 <= k < i && dir_of(*m, k) == e ==> size_matches(*m, sizes, k)) && ok));
                        }
                    }
                    assert forall|e1: Seq<char>, e2: Seq<char>|
                        #[trigger] slot_of@.contains_key(e1) && #[trigger] slot_of@.contains_key(e2) && e1 != e2
                        implies slot_of@[e1] != slot_of@[e2] by {
                        if e1 != dv && e2 != dv {
                            assert(old_slot.contains_key(e1) && old_slot.contains_key(e2));
                        }
                    }
                }
                i = i + 1;
            }
            // Directories that an entry finds not intact.
            let mut needs: StringHashMap<bool> = StringHashMap::new();
            let mut j: usize = 0;
            while j < entries.len()
                invariant
                    j <= entries@.len(),
                    n == m.files@.len(),
                    m.directories == Some(*entries),
                    counts@.len() == intact@.len(),
                    forall|d: Seq<char>| #[trigger] slot_of@.contains_key(d) ==> {
                        &&& slot_of@[d] < counts@.len()
                        &&& counts@[slot_of@[d] as int] == count_in_dir(*m, d, n as int)
                        &&& intact@[slot_of@[d] as int] == (forall|k: int| 0 <= k < n && dir_of(*m, k) == d ==> size_matches(*m, sizes, k))
                    },
                    forall|d: Seq<char>| #[trigger] needs@.contains_key(d) ==> slot_of@.contains_key(d),
                    forall|d: Seq<char>| #[trigger] slot_of@.contains_key(d) ==>
                        (needs@.contains_key(d) <==> exists|jj: int| 0 <= jj < j && entries@[jj].path@ == d
                            && !dir_intact(*m, sizes, d, entries@[jj].file_count)),
                decreases entries.len() - j,
            {
                let e = &entries[j];
                let ghost ev = e.path@;
                match slot_of.get(e.path.as_str()) {
                    Some(slot) => {
                        let slot = *slot;
                        if !(intact[slot] && counts[slot] == e.file_count) {
                            needs.insert(e.path.clone(), true);
                        }
                    },
                    None => {},
                }
                proof {
                    assert forall|d: Seq<char>| #[trigger] slot_of@.contains_key(d) implies
                        (needs@.contains_key(d) <==> exists|jj: int| 0 <= jj < j + 1 && entries@[jj].path@ == d
                            && !dir_intact(*m, sizes, d, entries@[jj].file_count)) by {
                        if d == ev {
                            if needs@.contains_key(d) && !(exists|jj: int| 0 <= jj < j && entries@[jj].path@ == d
                                && !dir_intact(*m, sizes, d, entries@[jj].file_count)) {
                                assert(entries@[j as int].path@ == d);
                            }
                        } else {
                            if exists|jj: int| 0 <= jj < j + 1 && entries@[jj].path@ == d
                                && !dir_intact(*m, sizes, d, entries@[jj].file_count) {
                                let jj = choose|jj: int| 0 <= jj < j + 1 && entries@[jj].path@ == d
                                    && !dir_intact(*m, sizes, d, entries@[jj].file_count);
                                assert(jj < j);
                            }
                        }
                    }
                }
                j = j + 1;
            }
            let mut i: usize = 0;
            while i < n
                invariant
                    i <= n,
                    n == m.files@.len(),
                    dirs@.len() == n,
                    m.directories == Some(*entries),
                    forall|k: int| 0 <= k < n ==> #[trigger] dirs@[k]@ == dir_of(*m, k),
                    forall|d: Seq<char>| !(#[trigger] slot_of@.contains_key(d)) ==>
                        forall|k: int| 0 <= k < n ==> dir_of(*m, k) != d,
                    forall|d: Seq<char>| #[trigger] needs@.contains_key(d) ==> slot_of@.contains_key(d),
                    forall|d: Seq<char>| #[trigger] slot_of@.contains_key(d) ==>
                        (needs@.contains_key(d) <==> exists|jj: int| 0 <= jj < entries@.len() && entries@[jj].path@ == d
                            && !dir_intact(*m, sizes, d, entries@[jj].file_count)),
                    forall|k: int| 0 <= k < r@.len() ==> #[trigger] r@[k] < i,
                    forall|k: int, l: int| 0 <= k < l < r@.len() ==> r@[k] < r@[l],
                    forall|k: int| 0 <= k < r@.len() ==> file_selected(*m, sizes, #[trigger] r@[k] as int),
                    forall|ii: int| 0 <= ii < i && file_selected(*m, sizes, ii) ==>
                        exists|k: int| 0 <= k < r@.len() && r@[k] == ii,
                decreases n - i,
            {
                let sel = needs.contains_key(dirs[i].as_str());
                proof {
                    let dv = dir_of(*m, i as int);
                    assert(dirs@[i as int]@ == dv);
                    assert(slot_of@.contains_key(dv));
                    assert(sel == needs@.contains_key(dv));
                    let ds = m.directories->0;
                    assert(ds == *entries);
                    assert(sel == file_selected(*m, sizes, i as int));
                }
                let ghost old_r = r@;
                if sel {
                    r.push(i);
                    proof {
                        assert(r@[r@.len() - 1] == i);
                    }
                }
                proof {
                    assert forall|ii: int| 0 <= ii < i + 1 && file_selected(*m, sizes, ii) implies
                        exists|k: int| 0 <= k < r@.len() && r@[k] == ii by {
                        if ii < i {
                            let k = choose|k: int| 0 <= k < old_r.len() && old_r[k] == ii;
                            assert(r@[k] == ii);
                        } else {
                            assert(r@[r@.len() - 1] == ii);
                        }
                    }
                }
                i = i + 1;
            }
            r
        },
    }
}

/// One file entry of a hash file as read from JSON: `path`, `hash`,
/// `size` and `url`, each where the entry has it with the right type.
pub type FileFields = (Option<String>, Option<String>, Option<u64>, Option<String>);

/// One directory entry of a hash file as read from JSON: `path` and
/// `file_count`, each where the entry has it with the right type.
pub type DirFields = (Option<String>, Option<u64>);

/// The view of `FileFields`.
pub type FileFieldsView = (Option<Seq<char>>, Option<Seq<char>>, Option<u64>, Option<Seq<char>>);

/// The view of `DirFields`.
pub type DirFieldsView = (Option<Seq<char>>, Option<u64>);

/// What `serde_json` reads from a hash file's text: its error message where
/// the text is not JSON; otherwise the entries of `files` and of
/// `directories`, each where that member is an array.
pub uninterp spec fn hash_file_fields(text: Seq<char>) -> Result<(Option<Seq<FileFieldsView>>, Option<Seq<DirFieldsView>>), Seq<char>>;

/// The view of the file entries.
pub open spec fn file_fields_views(fs: Option<Vec<FileFields>>) -> Option<Seq<FileFieldsView>> {
    match fs {
        Some(v) => Some(v@.map_values(|f: FileFields| (opt_chars(f.0), opt_chars(f.1), f.2, opt_chars(f.3)))),
        None => None,
    }
}

/// The view of the directory entries.
pub open spec fn dir_fields_views(ds: Option<Vec<DirFields>>) -> Option<Seq<DirFieldsView>> {
    match ds {
        Some(v) => Some(v@.map_values(|d: DirFields| (opt_chars(d.0), d.1))),
        None => None,
    }
}

/// `serde_json::from_str::<serde_json::Value>`, then the `files` and
/// `directories` arrays read member by member with `as_str` and `as_u64`.
/// Trusted: the result depends on the text alone and is named
/// `hash_file_fields`; nothing is stated of the JSON grammar.
#[verifier::external_body]
fn read_hash_file_json(text: &str) -> (r: Result<(Option<Vec<FileFields>>, Option<Vec<DirFields>>), String>)
    ensures
        match r {
            Ok((fs, ds)) => hash_file_fields(text@) == Ok::<(Option<Seq<FileFieldsView>>, Option<Seq<DirFieldsView>>), Seq<char>>((file_fields_views(fs), dir_fields_views(ds))),
            Err(m) => hash_file_fields(text@) == Err::<(Option<Seq<FileFieldsView>>, Option<Seq<DirFieldsView>>), Seq<char>>(m@),
        },
{
    let v: serde_json::Value = serde_json::from_str(text).map_err(|e| e.to_string())?;
    let s = |x: &serde_json::Value| x.as_str().map(|t| t.to_string());
    let files = v["files"].as_array().map(|a| a.iter().map(|f| (s(&f["path"]), s(&f["hash"]), f["size"].as_u64(), s(&f["url"]))).collect());
    let dirs = v["directories"].as_array().map(|a| a.iter().map(|d| (s(&d["path"]), d["file_count"].as_u64())).collect());
    Ok((files, dirs))
}

/// The text, or nothing where there is none.
pub open spec fn or_empty(o: Option<Seq<char>>) -> Seq<char> {
    match o {
        Some(s) => s,
        None => Seq::empty(),
    }
}

/// A count, or 0 where there is none (as `usize`).
pub open spec fn count_or_zero(o: Option<u64>) -> usize {
    match o {
        Some(c) => c as usize,
        None => 0,
    }
}

/// The text without its leading byte-order marks.
pub open spec fn strip_bom(text: Seq<char>) -> Seq<char> {
    strip_prefix_all(text, seq!['\u{FEFF}'])
}

/// The manifest that the entries read from a hash file give: each missing
/// text is empty, a missing size or count is 0, and without a `directories`
/// array there is no directory list.
pub open spec fn manifest_from_fields(m: HashManifest, fs: Seq<FileFieldsView>, ds: Option<Seq<DirFieldsView>>) -> bool {
    &&& m.files@.len() == fs.len()
    &&& forall|k: int| 0 <= k < fs.len() ==> {
        let f = #[trigger] m.files@[k];
        &&& f.path@ == or_empty(fs[k].0)
        &&& f.hash@ == or_empty(fs[k].1)
        &&& f.size == (match fs[k].2 { Some(n) => n, None => 0u64 })
        &&& f.url@ == or_empty(fs[k].3)
    }
    &&& match ds {
        None => m.directories is None,
        Some(d) => m.directories matches Some(v) && v@.len() == d.len()
            && forall|k: int| 0 <= k < d.len() ==> {
                &&& (#[trigger] v@[k]).path@ == or_empty(d[k].0)
                &&& v@[k].file_count == count_or_zero(d[k].1)
            },
    }
}

fn text_or_empty(o: &Option<String>) -> (r: String)
    ensures
        r@ == or_empty(opt_chars(*o)),
{
    match o {
        Some(s) => s.clone(),
        None => String::new(),
    }
}

/// Reads the server's hash file: leading byte-order marks are skipped, the
/// rest is read as JSON. Fails with `serde_json`'s message where it is not
/// JSON, and with "Invalid server hash file format" where it has no `files`
/// array; otherwise every entry is taken, missing fields by their default.
pub fn parse_hash_manifest(text: &str) -> (r: Result<HashManifest, String>)
    ensures
        match hash_file_fields(strip_bom(text@)) {
            Err(m) => r matches Err(e) && e@ == m,
            Ok((None, _)) => r matches Err(e) && e@ == "Invalid server hash file format"@,
            Ok((Some(fs), ds)) => r matches Ok(m) && manifest_from_fields(m, fs, ds),
        },
{
    let cs = chars_of(text);
    let bom = ['\u{FEFF}'];
    assert(bom@ == seq!['\u{FEFF}']);
    let stripped = string_of(strip_prefix_all_chars(cs.as_slice(), &bom).as_slice());
    let (fs, ds) = match read_hash_file_json(stripped.as_str()) {
        Err(m) => {
            return Err(m);
        },
        Ok((None, _)) => {
            return Err(owned("Invalid server hash file format"));
        },
        Ok((Some(fs), ds)) => (fs, ds),
    };
    let ghost fv = file_fields_views(Some(fs))->0;
    let mut files: Vec<FileInfo> = Vec::new();
    let mut i: usize = 0;
    while i < fs.len()
        invariant
            i <= fs@.len(),
            fv == file_fields_views(Some(fs))->0,
            files@.len() == i,
            forall|k: int| 0 <= k < i ==> {
                let f = #[trigger] files@[k];
                &&& f.path@ == or_empty(fv[k].0)
                &&& f.hash@ == or_empty(fv[k].1)
                &&& f.size == (match fv[k].2 { Some(n) => n, None => 0u64 })
                &&& f.url@ == or_empty(fv[k].3)
            },
        decreases fs.len() - i,
    {
        let e = &fs[i];
        let size = match e.2 {
            Some(n) => n,
            None => 0,
        };
        files.push(FileInfo { path: text_or_empty(&e.0), hash: text_or_empty(&e.1), size, url: text_or_empty(&e.3) });
        i = i + 1;
    }
    let directories = match ds {
        None => None,
        Some(dv) => {
            let ghost dd = dir_fields_views(Some(dv))->0;
            let mut out: Vec<DirectoryEntry> = Vec::new();
            let mut j: usize = 0;
            while j < dv.len()
                invariant
                    j <= dv@.len(),
                    dd == dir_fields_views(Some(dv))->0,
                    out@.len() == j,
                    forall|k: int| 0 <= k < j ==> {
                        &&& (#[trigger] out@[k]).path@ == or_empty(dd[k].0)
                        &&& out@[k].file_count == count_or_zero(dd[k].1)
                    },
                decreases dv.len() - j,
            {
                let count: usize = match dv[j].1 {
                    Some(c) => c as usize,
                    None => 0,
                };
                out.push(DirectoryEntry { path: text_or_empty(&dv[j].0), file_count: count });
                j = j + 1;
            }
            Some(out)
        },
    };
    Ok(HashManifest { files, directories })
}

/// Law: a directory is taken as verified only when every one of its files,
/// wherever it stands in the manifest, is present with its listed size.
/// Where a manifest that lists directories names the directory of file
/// `i`, and file `i` is missing or has another size, every file of that
/// directory is picked.
pub proof fn law_damaged_file_reopens_its_directory(m: HashManifest, sizes: Seq<Option<u64>>, i: int, j: int)
    requires
        0 <= i < m.files@.len(),
        0 <= j < m.files@.len(),
        sizes.len() == m.files@.len(),
        sizes[i] != Some(m.files@[i].size),
        parent_dir_spec(m.files@[j].path@) == parent_dir_spec(m.files@[i].path@),
        m.directories matches Some(ds)
            && exists|k: int| 0 <= k < ds@.len() && #[trigger] ds@[k].path@ == parent_dir_spec(m.files@[i].path@),
    ensures
        file_selected(m, sizes, j),
{
    let ds = m.directories->0;
    let d = parent_dir_spec(m.files@[i].path@);
    let k = choose|k: int| 0 <= k < ds@.len() && #[trigger] ds@[k].path@ == d;
    assert(dir_of(m, i) == d);
    assert(dir_of(m, j) == d);
    assert(!size_matches(m, sizes, i));
    assert(!dir_intact(m, sizes, d, ds@[k].file_count));
}

/// Law: without a directory list every file is picked.
pub proof fn law_no_directory_list_picks_everything(m: HashManifest, sizes: Seq<Option<u64>>, i: int)
    requires
        m.directories is None,
    ensures
        file_selected(m, sizes, i),
{
}

/// Law: the files of a directory are skipped when every entry naming it
/// finds all its files present with their listed sizes and their number
/// equal to the entry's count.
pub proof fn law_intact_directory_is_skipped(m: HashManifest, sizes: Seq<Option<u64>>, i: int)
    requires
        0 <= i < m.files@.len(),
        m.directories matches Some(ds) && forall|k: int| 0 <= k < ds@.len()
            && #[trigger] ds@[k].path@ == parent_dir_spec(m.files@[i].path@) ==> {
                &&& count_in_dir(m, ds@[k].path@, m.files@.len() as int) == ds@[k].file_count
                &&& forall|j: int| 0 <= j < m.files@.len() && parent_dir_spec(m.files@[j].path@) == ds@[k].path@
                    ==> #[trigger] sizes[j] == Some(m.files@[j].size)
            },
    ensures
        !file_selected(m, sizes, i),
{
}

} // verus!
