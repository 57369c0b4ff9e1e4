//! Deciding, file by file, which game files must be downloaded again.
//!
//! The caller looks at each picked file on disk (`LocalState`), asks
//! `triage_files` which of them need their contents hashed, hashes those,
//! and hands the hashes to `finish_update_plan`, which updates the cache and
//! returns the files to download.
use vstd::prelude::*;
use crate::cache::{FileCache, FileTime, CachedFile};
use crate::manifest::{FileInfo, HashManifest};
use crate::text::{unicode_lowercase, eq_ignoring_case};

verus! {

/// What the disk says of a local file.
#[derive(Clone, Copy, PartialEq, Eq, Structural, Debug)]
pub enum LocalState {
    /// The file does not exist, or its metadata cannot be read.
    Missing,
    /// The file exists with this size, and this modification time where the
    /// platform reports one.
    Present { size: u64, modified: Option<FileTime> },
}

/// The first verdict on a file, before its contents are read.
#[derive(Clone, Copy, PartialEq, Eq, Structural, Debug)]
pub enum Triage {
    /// Must be downloaded.
    Update,
    /// The cache vouches for the local copy.
    UpToDate,
    /// The size matches; the contents must be hashed to decide.
    NeedsHash,
}

/// The first verdict for manifest file `f` with local state `local`, given
/// the cache `cache`: a missing file is updated; a file whose modification
/// time equals the cached one, and whose cached hash equals the manifest's
/// (ignoring case), is up to date; otherwise a size mismatch means update
/// and a matching size means the contents must be hashed.
pub open spec fn triage_spec(f: FileInfo, local: LocalState, cache: Map<Seq<char>, CachedFile>) -> Triage {
    match local {
        LocalState::Missing => Triage::Update,
        LocalState::Present { size, modified } => {
            if cache.contains_key(f.path@) && modified is Some && cache[f.path@].modified == modified->0
                && unicode_lowercase(cache[f.path@].hash@) == unicode_lowercase(f.hash@) {
                Triage::UpToDate
            } else if size != f.size {
                Triage::Update
            } else {
                Triage::NeedsHash
            }
        },
    }
}

/// The first verdict for one file.
pub fn triage_file(f: &FileInfo, local: LocalState, cache: &FileCache) -> (t: Triage)
    ensures
        t == triage_spec(*f, local, cache@),
{
    match local {
        LocalState::Missing => Triage::Update,
        LocalState::Present { size, modified } => {
            let vouched = match (cache.get(f.path.as_str()), modified) {
                (Some(c), Some(lm)) => c.modified == lm && eq_ignoring_case(c.hash.as_str(), f.hash.as_str()),
                _ => false,
            };
            if vouched {
                Triage::UpToDate
            } else if size != f.size {
                Triage::Update
            } else {
                Triage::NeedsHash
            }
        },
    }
}

/// The first verdicts for the picked files: `locals[k]` is the local state
/// of file `selected[k]`.
pub fn triage_files(m: &HashManifest, selected: &Vec<usize>, locals: &Vec<LocalState>, cache: &FileCache) -> (t: Vec<Triage>)
    requires
        locals@.len() == selected@.len(),
        forall|k: int| 0 <= k < selected@.len() ==> #[trigger] selected@[k] < m.files@.len(),
    ensures
        t@.len() == selected@.len(),
        forall|k: int| 0 <= k < t@.len() ==>
            #[trigger] t@[k] == triage_spec(m.files@[selected@[k] as int], locals@[k], cache@),
{
    let mut t: Vec<Triage> = Vec::new();
    let mut k: usize = 0;
    while k < selected.len()
        invariant
            k <= selected@.len(),
            locals@.len() == selected@.len(),
            forall|j: int| 0 <= j < selected@.len() ==> #[trigger] selected@[j] < m.files@.len(),
            t@.len() == k,
            forall|j: int| 0 <= j < k ==>
                #[trigger] t@[j] == triage_spec(m.files@[selected@[j] as int], locals@[j], cache@),
        decreases selected.len() - k,
    {
        let v = triage_file(&m.files[selected[k]], locals[k], cache);
        t.push(v);
        k = k + 1;
    }
    t
}

/// The view of an optional string.
pub open spec fn opt_chars(o: Option<String>) -> Option<Seq<char>> {
    match o {
        Some(s) => Some(s@),
        None => None,
    }
}

/// Whether a file must be downloaded, given its first verdict and, for a
/// file whose contents were hashed, that hash (`None` where hashing
/// failed): a failed hash, or one that differs from the manifest's
/// (ignoring case), means download.
pub open spec fn needs_download(t: Triage, local_hash: Option<Seq<char>>, server_hash: Seq<char>) -> bool {
    match t {
        Triage::Update => true,
        Triage::UpToDate => false,
        Triage::NeedsHash => match local_hash {
            None => true,
            Some(h) => unicode_lowercase(h) != unicode_lowercase(server_hash),
        },
    }
}

/// The manifest indices of the first `n` picked files that must be
/// downloaded, in order.
pub open spec fn planned_indices(
    m: HashManifest,
    selected: Seq<usize>,
    triage: Seq<Triage>,
    hashes: Seq<Option<String>>,
    n: int,
) -> Seq<usize>
    decreases n,
{
    if n <= 0 {
        Seq::empty()
    } else {
        let prev = planned_indices(m, selected, triage, hashes, n - 1);
        if needs_download(triage[n - 1], opt_chars(hashes[n - 1]), m.files@[selected[n - 1] as int].hash@) {
            prev.push(selected[n - 1])
        } else {
            prev
        }
    }
}

/// The time recorded in the cache for a freshly hashed file: its
/// modification time, or `now` where the platform gives none.
pub open spec fn recorded_time(local: LocalState, now: FileTime) -> FileTime {
    match local {
        LocalState::Present { modified: Some(t), .. } => t,
        _ => now,
    }
}

/// The cache after the first `n` picked files were processed: every file
/// whose contents were hashed successfully gets its new hash and time.
pub open spec fn cache_after(
    m: HashManifest,
    selected: Seq<usize>,
    locals: Seq<LocalState>,
    triage: Seq<Triage>,
    hashes: Seq<Option<String>>,
    now: FileTime,
    start: Map<Seq<char>, CachedFile>,
    n: int,
) -> Map<Seq<char>, CachedFile>
    decreases n,
{
    if n <= 0 {
        start
    } else {
        let prev = cache_after(m, selected, locals, triage, hashes, now, start, n - 1);
        if triage[n - 1] == Triage::NeedsHash && hashes[n - 1] is Some {
            prev.insert(
                m.files@[selected[n - 1] as int].path@,
                CachedFile { hash: hashes[n - 1]->0, modified: recorded_time(locals[n - 1], now) },
            )
        } else {
            prev
        }
    }
}

/// A copy of a manifest file.
pub fn copy_file_info(f: &FileInfo) -> (r: FileInfo)
    ensures
        r == *f,
{
    FileInfo { path: f.path.clone(), hash: f.hash.clone(), size: f.size, url: f.url.clone() }
}

/// Completes the plan: records each successful hash in the cache and
/// returns, in order, the picked files that must be downloaded.
/// `hashes[k]` is the hash of the local copy of file `selected[k]` where
/// `triage[k]` is `NeedsHash`, as `FileHasher::finish_hex` gives it after
/// being fed the file's bytes (`None` where the file could not be read); it
/// is not read for the other files.
pub fn finish_update_plan(
    m: &HashManifest,
    selected: &Vec<usize>,
    locals: &Vec<LocalState>,
    triage: &Vec<Triage>,
    hashes: &Vec<Option<String>>,
    cache: &mut FileCache,
    now: FileTime,
) -> (updates: Vec<FileInfo>)
    requires
        locals@.len() == selected@.len(),
        triage@.len() == selected@.len(),
        hashes@.len() == selected@.len(),
        forall|k: int| 0 <= k < selected@.len() ==> #[trigger] selected@[k] < m.files@.len(),
    ensures
        ({
            let plan = planned_indices(*m, selected@, triage@, hashes@, selected@.len() as int);
            &&& updates@.len() == plan.len()
            &&& forall|k: int| 0 <= k < plan.len() ==> #[trigger] updates@[k] == m.files@[plan[k] as int]
        }),
        final(cache)@ == cache_after(*m, selected@, locals@, triage@, hashes@, now, old(cache)@, selected@.len() as int),
{
    let ghost start = cache@;
    let mut updates: Vec<FileInfo> = Vec::new();
    let mut k: usize = 0;
    while k < selected.len()
        invariant
            k <= selected@.len(),
            locals@.len() == selected@.len(),
            triage@.len() == selected@.len(),
            hashes@.len() == selected@.len(),
            forall|j: int| 0 <= j < selected@.len() ==> #[trigger] selected@[j] < m.files@.len(),
            ({
                let plan = planned_indices(*m, selected@, triage@, hashes@, k as int);
                &&& updates@.len() == plan.len()
                &&& forall|j: int| 0 <= j < plan.len() ==> #[trigger] updates@[j] == m.files@[plan[j] as int]
            }),
            cache@ == cache_after(*m, selected@, locals@, triage@, hashes@, now, start, k as int),
        decreases selected.len() - k,
    {
        let f = &m.files[selected[k]];
        let download = match triage[k] {
            Triage::Update => true,
            Triage::UpToDate => false,
            Triage::NeedsHash => match &hashes[k] {
                None => true,
                Some(h) => {
                    let when = match locals[k] {
                        LocalState::Present { modified: Some(t), .. } => t,
                        _ => now,
                    };
                    cache.insert(f.path.clone(), CachedFile { hash: h.clone(), modified: when });
                    !eq_ignoring_case(h.as_str(), f.hash.as_str())
                },
            },
        };
        let ghost before = updates@;
        if download {
            updates.push(copy_file_info(f));
        }
        proof {
            let plan = planned_indices(*m, selected@, triage@, hashes@, k + 1);
            let prev = planned_indices(*m, selected@, triage@, hashes@, k as int);
            assert(download == needs_download(triage@[k as int], opt_chars(hashes@[k as int]), f.hash@));
            if download {
                assert(plan == prev.push(selected@[k as int]));
                assert forall|j: int| 0 <= j < plan.len() implies #[trigger] updates@[j] == m.files@[plan[j] as int] by {
                    if j < prev.len() {
                        assert(updates@[j] == before[j]);
                    }
                }
            }
        }
        k = k + 1;
    }
    updates
}

/// The sum of the listed sizes of the first `n` files.
pub open spec fn size_sum(files: Seq<FileInfo>, n: int) -> nat
    decreases n,
{
    if n <= 0 {
        0
    } else {
        size_sum(files, n - 1) + files[n - 1].size as nat
    }
}

/// The sum of the listed sizes grows with the number of files counted.
pub proof fn lemma_size_sum_monotone(files: Seq<FileInfo>, m: int, n: int)
    requires
        0 <= m <= n,
    ensures
        size_sum(files, m) <= size_sum(files, n),
    decreases n - m,
{
    if m < n {
        lemma_size_sum_monotone(files, m, n - 1);
    }
}

/// The total size of the files to download, or `None` where it does not
/// fit in a `u64`.
pub fn total_download_size(files: &Vec<FileInfo>) -> (r: Option<u64>)
    ensures
        size_sum(files@, files@.len() as int) <= u64::MAX ==> r == Some(size_sum(files@, files@.len() as int) as u64),
        size_sum(files@, files@.len() as int) > u64::MAX ==> r is None,
{
    let mut total: u64 = 0;
    let mut i: usize = 0;
    while i < files.len()
        invariant
            i <= files@.len(),
            total == size_sum(files@, i as int),
        decreases files.len() - i,
    {
        match total.checked_add(files[i].size) {
            Some(t) => total = t,
            None => {
                proof { lemma_size_sum_monotone(files@, i + 1, files@.len() as int); }
                return None;
            },
        }
        i = i + 1;
    }
    Some(total)
}

/// The outcome of the downloads, taken in file order: the first failure
/// if any, else every downloaded size.
pub fn collect_download_results(results: Vec<Result<u64, String>>) -> (r: Result<Vec<u64>, String>)
    ensures
        match r {
            Ok(sizes) => sizes@.len() == results@.len() && forall|i: int| 0 <= i < results@.len() ==>
                #[trigger] results@[i] == Ok::<u64, String>(sizes@[i]),
            Err(e) => exists|i: int| 0 <= i < results@.len() && #[trigger] results@[i] == Err::<u64, String>(e)
                && forall|j: int| 0 <= j < i ==> results@[j] is Ok,
        },
{
    let mut sizes: Vec<u64> = Vec::new();
    let mut i: usize = 0;
    while i < results.len()
        invariant
            i <= results@.len(),
            sizes@.len() == i,
            forall|j: int| 0 <= j < i ==> #[trigger] results@[j] == Ok::<u64, String>(sizes@[j]),
        decreases results.len() - i,
    {
        match &results[i] {
            Ok(n) => sizes.push(*n),
            Err(e) => {
                let e = e.clone();
                assert(results@[i as int] == Err::<u64, String>(e));
                return Err(e);
            },
        }
        i = i + 1;
    }
    Ok(sizes)
}

proof fn lemma_planned_contains(
    m: HashManifest,
    selected: Seq<usize>,
    triage: Seq<Triage>,
    hashes: Seq<Option<String>>,
    k: int,
    n: int,
)
    requires
        0 <= k < n,
        needs_download(triage[k], opt_chars(hashes[k]), m.files@[selected[k] as int].hash@),
    ensures
        planned_indices(m, selected, triage, hashes, n).contains(selected[k]),
    decreases n,
{
    let prev = planned_indices(m, selected, triage, hashes, n - 1);
    if k == n - 1 {
        assert(planned_indices(m, selected, triage, hashes, n)[prev.len() as int] == selected[k]);
    } else {
        lemma_planned_contains(m, selected, triage, hashes, k, n - 1);
        let j = choose|j: int| 0 <= j < prev.len() && prev[j] == selected[k];
        assert(planned_indices(m, selected, triage, hashes, n)[j] == selected[k]);
    }
}

/// Law: a picked file whose local copy is missing is always downloaded.
pub proof fn law_missing_file_is_downloaded(
    m: HashManifest,
    selected: Seq<usize>,
    locals: Seq<LocalState>,
    triage: Seq<Triage>,
    hashes: Seq<Option<String>>,
    cache: Map<Seq<char>, CachedFile>,
    k: int,
)
    requires
        0 <= k < selected.len(),
        triage.len() == selected.len(),
        triage[k] == triage_spec(m.files@[selected[k] as int], locals[k], cache),
        locals[k] == LocalState::Missing,
    ensures
        planned_indices(m, selected, triage, hashes, selected.len() as int).contains(selected[k]),
{
    lemma_planned_contains(m, selected, triage, hashes, k, selected.len() as int);
}

/// Law: when every picked file is present with its listed size and, where
/// its contents had to be hashed, with its listed hash (ignoring case),
/// nothing is downloaded.
pub proof fn law_matching_files_need_no_download(
    m: HashManifest,
    selected: Seq<usize>,
    locals: Seq<LocalState>,
    triage: Seq<Triage>,
    hashes: Seq<Option<String>>,
    cache: Map<Seq<char>, CachedFile>,
    n: int,
)
    requires
        0 <= n <= selected.len(),
        forall|k: int| 0 <= k < n ==> {
            let f = m.files@[selected[k] as int];
            &&& #[trigger] triage[k] == triage_spec(f, locals[k], cache)
            &&& locals[k] matches LocalState::Present { size, .. } && size == f.size
            &&& triage[k] == Triage::NeedsHash ==> (hashes[k] matches Some(h)
                && unicode_lowercase(h@) == unicode_lowercase(f.hash@))
        },
    ensures
        planned_indices(m, selected, triage, hashes, n) == Seq::<usize>::empty(),
    decreases n,
{
    if n > 0 {
        law_matching_files_need_no_download(m, selected, locals, triage, hashes, cache, n - 1);
        assert(triage[n - 1] == triage_spec(m.files@[selected[n - 1] as int], locals[n - 1], cache));
    }
}

proof fn lemma_cache_keeps_entry(
    m: HashManifest,
    selected: Seq<usize>,
    locals: Seq<LocalState>,
    triage: Seq<Triage>,
    hashes: Seq<Option<String>>,
    now: FileTime,
    start: Map<Seq<char>, CachedFile>,
    k: int,
    n: int,
)
    requires
        0 <= k < n <= selected.len(),
        triage[k] == Triage::NeedsHash,
        hashes[k] is Some,
        forall|j: int| 0 <= j < selected.len() && j != k
            ==> #[trigger] m.files@[selected[j] as int].path@ != m.files@[selected[k] as int].path@,
    ensures
        ({
            let c = cache_after(m, selected, locals, triage, hashes, now, start, n);
            let p = m.files@[selected[k] as int].path@;
            &&& c.contains_key(p)
            &&& c[p] == CachedFile { hash: hashes[k]->0, modified: recorded_time(locals[k], now) }
        }),
    decreases n,
{
    if n - 1 > k {
        lemma_cache_keeps_entry(m, selected, locals, triage, hashes, now, start, k, n - 1);
        assert(m.files@[selected[n - 1] as int].path@ != m.files@[selected[k] as int].path@);
    }
}

/// Law: a file whose contents were hashed and found equal to the listed
/// hash (ignoring case) is vouched for by the cache at the next check, as
/// long as its modification time is unchanged (no other picked file having
/// its path).
pub proof fn law_matching_hash_is_remembered(
    m: HashManifest,
    selected: Seq<usize>,
    locals: Seq<LocalState>,
    triage: Seq<Triage>,
    hashes: Seq<Option<String>>,
    now: FileTime,
    start: Map<Seq<char>, CachedFile>,
    k: int,
)
    requires
        0 <= k < selected.len(),
        triage[k] == Triage::NeedsHash,
        hashes[k] matches Some(h) && unicode_lowercase(h@) == unicode_lowercase(m.files@[selected[k] as int].hash@),
        locals[k] matches LocalState::Present { modified: Some(_), .. },
        forall|j: int| 0 <= j < selected.len() && j != k
            ==> #[trigger] m.files@[selected[j] as int].path@ != m.files@[selected[k] as int].path@,
    ensures
        triage_spec(
            m.files@[selected[k] as int],
            locals[k],
            cache_after(m, selected, locals, triage, hashes, now, start, selected.len() as int),
        ) == Triage::UpToDate,
{
    lemma_cache_keeps_entry(m, selected, locals, triage, hashes, now, start, k, selected.len() as int);
}

/// Law: the cache vouches for a file only when the hash it recorded equals
/// the manifest's hash, ignoring case. Where the recorded hash differs, a
/// present file is never taken as up to date: it is updated when its size
/// differs from the listed one and hashed otherwise.
pub proof fn law_cache_vouches_only_for_same_hash(
    f: FileInfo,
    size: u64,
    modified: Option<FileTime>,
    cache: Map<Seq<char>, CachedFile>,
)
    requires
        cache.contains_key(f.path@),
        unicode_lowercase(cache[f.path@].hash@) != unicode_lowercase(f.hash@),
    ensures
        triage_spec(f, LocalState::Present { size, modified }, cache)
            == (if size != f.size { Triage::Update } else { Triage::NeedsHash }),
{
}

/// Law: a file that the cache does not know, or knows with another
/// modification time, is never taken as up to date from the cache.
pub proof fn law_cache_vouches_only_for_same_time(
    f: FileInfo,
    size: u64,
    modified: Option<FileTime>,
    cache: Map<Seq<char>, CachedFile>,
)
    requires
        !cache.contains_key(f.path@) || modified is None || cache[f.path@].modified != modified->0,
    ensures
        triage_spec(f, LocalState::Present { size, modified }, cache)
            == (if size != f.size { Triage::Update } else { Triage::NeedsHash }),
{
}

/// Law: a file whose contents had to be hashed is downloaded exactly when
/// hashing failed or the hash differs from the listed one, ignoring case.
pub proof fn law_hash_decides_download(local_hash: Option<Seq<char>>, server_hash: Seq<char>)
    ensures
        needs_download(Triage::NeedsHash, local_hash, server_hash)
            == (match local_hash {
                None => true,
                Some(h) => unicode_lowercase(h) != unicode_lowercase(server_hash),
            }),
        needs_download(Triage::Update, local_hash, server_hash),
        !needs_download(Triage::UpToDate, local_hash, server_hash),
{
}

} // verus!
