use teralaunch::cache::{CachedFile, FileCache, FileTime};
use teralaunch::manifest::{parse_hash_manifest, select_files_to_check, DirectoryEntry, FileInfo, HashManifest};
use teralaunch::plan::{
    collect_download_results, finish_update_plan, total_download_size, triage_file, triage_files, LocalState, Triage,
};

fn entry(path: &str, hash: &str, size: u64) -> FileInfo {
    FileInfo { path: path.to_string(), hash: hash.to_string(), size, url: format!("http://f/{}", path) }
}

fn t(secs: i64) -> FileTime {
    FileTime { secs, nanos: 0 }
}

fn manifest(dirs: Option<Vec<DirectoryEntry>>) -> HashManifest {
    HashManifest {
        files: vec![
            entry("S1Game/A/1.upk", "aa", 10),
            entry("S1Game/A/2.upk", "bb", 20),
            entry("S1Game/B/3.upk", "cc", 30),
            entry("S1Game/C/4.upk", "dd", 40),
        ],
        directories: dirs,
    }
}

#[test]
fn without_directories_every_file_is_checked() {
    let m = manifest(None);
    let sizes = vec![Some(10), None, Some(30), Some(1)];
    assert_eq!(select_files_to_check(&m, &sizes), vec![0, 1, 2, 3]);
}

#[test]
fn intact_directories_are_skipped() {
    let dirs = vec![
        DirectoryEntry { path: "S1Game/A".to_string(), file_count: 2 },
        DirectoryEntry { path: "S1Game/B".to_string(), file_count: 1 },
    ];
    let m = manifest(Some(dirs));
    // A intact, B has a wrong size, C is named by no entry.
    let sizes = vec![Some(10), Some(20), Some(31), Some(40)];
    assert_eq!(select_files_to_check(&m, &sizes), vec![2]);
    // A has a missing file.
    let sizes = vec![Some(10), None, Some(30), Some(40)];
    assert_eq!(select_files_to_check(&m, &sizes), vec![0, 1]);
}

#[test]
fn directory_count_mismatch_means_check() {
    let dirs = vec![DirectoryEntry { path: "S1Game/A".to_string(), file_count: 3 }];
    let m = manifest(Some(dirs));
    let sizes = vec![Some(10), Some(20), Some(30), Some(40)];
    assert_eq!(select_files_to_check(&m, &sizes), vec![0, 1]);
}

#[test]
fn triage_of_single_files() {
    let f = entry("S1Game/A/1.upk", "AA", 10);
    let mut cache = FileCache::new();
    assert_eq!(triage_file(&f, LocalState::Missing, &cache), Triage::Update);
    let present = LocalState::Present { size: 10, modified: Some(t(5)) };
    assert_eq!(triage_file(&f, present, &cache), Triage::NeedsHash);
    let wrong = LocalState::Present { size: 11, modified: Some(t(5)) };
    assert_eq!(triage_file(&f, wrong, &cache), Triage::Update);
    cache.insert("S1Game/A/1.upk".to_string(), CachedFile { hash: "aa".to_string(), modified: t(5) });
    assert_eq!(triage_file(&f, present, &cache), Triage::UpToDate);
    // A cache hit wins even over a size mismatch.
    assert_eq!(triage_file(&f, wrong, &cache), Triage::UpToDate);
    let touched = LocalState::Present { size: 10, modified: Some(t(6)) };
    assert_eq!(triage_file(&f, touched, &cache), Triage::NeedsHash);
    let no_time = LocalState::Present { size: 10, modified: None };
    assert_eq!(triage_file(&f, no_time, &cache), Triage::NeedsHash);
}

#[test]
fn plan_downloads_missing_and_changed_files_and_updates_cache() {
    let m = manifest(None);
    let selected = vec![0, 1, 2, 3];
    let locals = vec![
        LocalState::Missing,
        LocalState::Present { size: 20, modified: Some(t(1)) },
        LocalState::Present { size: 30, modified: None },
        LocalState::Present { size: 40, modified: Some(t(2)) },
    ];
    let mut cache = FileCache::new();
    let triage = triage_files(&m, &selected, &locals, &cache);
    assert_eq!(triage, vec![Triage::Update, Triage::NeedsHash, Triage::NeedsHash, Triage::NeedsHash]);
    let hashes = vec![None, Some("BB".to_string()), Some("xx".to_string()), None];
    let updates = finish_update_plan(&m, &selected, &locals, &triage, &hashes, &mut cache, t(99));
    let paths: Vec<String> = updates.iter().map(|f| f.path.clone()).collect();
    assert_eq!(paths, vec!["S1Game/A/1.upk", "S1Game/B/3.upk", "S1Game/C/4.upk"]);
    assert_eq!(cache.len(), 2);
    let c1 = cache.get("S1Game/A/2.upk").unwrap();
    assert_eq!(c1.hash, "BB");
    assert_eq!(c1.modified, t(1));
    let c2 = cache.get("S1Game/B/3.upk").unwrap();
    assert_eq!(c2.hash, "xx");
    assert_eq!(c2.modified, t(99));
    assert!(cache.get("S1Game/C/4.upk").is_none());
}

#[test]
fn matching_folder_downloads_nothing() {
    let m = manifest(None);
    let selected = vec![0, 1, 2, 3];
    let locals: Vec<LocalState> = m.files.iter().map(|f| LocalState::Present { size: f.size, modified: None }).collect();
    let mut cache = FileCache::new();
    let triage = triage_files(&m, &selected, &locals, &cache);
    let hashes: Vec<Option<String>> = m.files.iter().map(|f| Some(f.hash.to_uppercase())).collect();
    let updates = finish_update_plan(&m, &selected, &locals, &triage, &hashes, &mut cache, t(0));
    assert_eq!(updates.len(), 0);
    // Second run: the cache vouches for every file.
    let locals2: Vec<LocalState> = m.files.iter().map(|f| LocalState::Present { size: f.size, modified: Some(t(0)) }).collect();
    let triage2 = triage_files(&m, &selected, &locals2, &cache);
    assert_eq!(triage2, vec![Triage::UpToDate; 4]);
}

#[test]
fn missing_file_is_always_downloaded() {
    let m = manifest(None);
    let selected = vec![3];
    let locals = vec![LocalState::Missing];
    let mut cache = FileCache::new();
    cache.insert("S1Game/C/4.upk".to_string(), CachedFile { hash: "dd".to_string(), modified: t(1) });
    let triage = triage_files(&m, &selected, &locals, &cache);
    let updates = finish_update_plan(&m, &selected, &locals, &triage, &vec![None], &mut cache, t(2));
    assert_eq!(updates.len(), 1);
    assert_eq!(updates[0].path, "S1Game/C/4.upk");
}

#[test]
fn total_size_and_overflow() {
    let m = manifest(None);
    assert_eq!(total_download_size(&m.files), Some(100));
    let big = vec![entry("a", "", u64::MAX), entry("b", "", 1)];
    assert_eq!(total_download_size(&big), None);
    assert_eq!(total_download_size(&Vec::new()), Some(0));
}

#[test]
fn first_download_failure_wins() {
    assert_eq!(collect_download_results(vec![Ok(1), Ok(2)]), Ok(vec![1, 2]));
    assert_eq!(
        collect_download_results(vec![Ok(1), Err("a".to_string()), Err("b".to_string())]),
        Err("a".to_string())
    );
    assert_eq!(collect_download_results(Vec::new()), Ok(vec![]));
}

#[test]
fn hash_file_text_is_read_with_defaults() {
    let text = "\u{FEFF}{\"files\": [{\"path\": \"S1Game/A/1.upk\", \"hash\": \"aa\", \"size\": 10, \"url\": \"u\"},\
                {\"path\": 5, \"size\": -1}], \"directories\": [{\"path\": \"S1Game/A\", \"file_count\": 1}, {}]}";
    let m = parse_hash_manifest(text).ok().unwrap();
    assert_eq!(m.files.len(), 2);
    assert_eq!(m.files[0].path, "S1Game/A/1.upk");
    assert_eq!(m.files[0].hash, "aa");
    assert_eq!(m.files[0].size, 10);
    assert_eq!(m.files[0].url, "u");
    assert_eq!(m.files[1].path, "");
    assert_eq!(m.files[1].hash, "");
    assert_eq!(m.files[1].size, 0);
    assert_eq!(m.files[1].url, "");
    let dirs = m.directories.unwrap();
    assert_eq!(dirs.len(), 2);
    assert_eq!(dirs[0].path, "S1Game/A");
    assert_eq!(dirs[0].file_count, 1);
    assert_eq!(dirs[1].path, "");
    assert_eq!(dirs[1].file_count, 0);
}

#[test]
fn hash_file_without_directory_array() {
    let m = parse_hash_manifest("{\"files\": [], \"directories\": 3}").ok().unwrap();
    assert!(m.files.is_empty());
    assert!(m.directories.is_none());
}

#[test]
fn hash_file_errors() {
    assert_eq!(parse_hash_manifest("{\"files\": 1}").err(), Some("Invalid server hash file format".to_string()));
    assert_eq!(parse_hash_manifest("{}").err(), Some("Invalid server hash file format".to_string()));
    let e = parse_hash_manifest("not json").err().unwrap();
    assert_eq!(e, serde_json::from_str::<serde_json::Value>("not json").unwrap_err().to_string());
}
