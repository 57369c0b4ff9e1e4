use sha2::{Digest, Sha256};
use teralaunch::digest::verify_download;
use teralaunch::hashfile::{directory_summaries, hash_file_entry, ignored_paths, is_ignored, normalize_path};
use teralaunch::manifest::{parent_dir, select_files_to_check, DirectoryEntry, FileInfo, HashManifest};

fn entry(path: &str, hash: &str, size: u64) -> FileInfo {
    FileInfo { path: path.to_string(), hash: hash.to_string(), size, url: String::new() }
}

#[test]
fn paths_use_forward_slashes() {
    assert_eq!(normalize_path("CookedPC\\Art\\x.upk"), "CookedPC/Art/x.upk");
    assert_eq!(normalize_path("a/b"), "a/b");
}

#[test]
fn ignored_files() {
    let ig = ignored_paths();
    assert_eq!(ig.len(), 13);
    assert!(is_ignored("S1Game.ini", &ig));
    assert!(is_ignored("Logs\\launch.log", &ig));
    assert!(is_ignored("Config/S1Option.ini", &ig));
    assert!(is_ignored("Config\\S1UI.ini", &ig));
    assert!(!is_ignored("Config/S1Data.ini", &ig));
    assert!(!is_ignored("CookedPC/Art.upk", &ig));
    assert!(is_ignored("ScreenshotsOld/a.png", &ig));
}

#[test]
fn entry_of_a_file() {
    let f = hash_file_entry("CookedPC\\a.txt", b"hello world", "http://files.example");
    assert_eq!(f.path, "S1Game/CookedPC/a.txt");
    assert_eq!(f.hash, "b94d27b9934d3e08a52e52d7da7dabfac484efe37a5380ee9088f7ace2efcde9");
    assert_eq!(f.size, 11);
    assert_eq!(f.url, "http://files.example/S1Game/CookedPC/a.txt");
}

#[test]
fn parent_directories() {
    assert_eq!(parent_dir("S1Game/CookedPC/a.upk"), "S1Game/CookedPC");
    assert_eq!(parent_dir("top.txt"), "S1Game");
    assert_eq!(parent_dir("/x"), "");
}

fn dir_hash(hashes: &[&str]) -> String {
    let mut h = Sha256::new();
    for x in hashes {
        h.update(x.as_bytes());
    }
    format!("{:x}", h.finalize())
}

#[test]
fn directory_summaries_group_sort_and_hash() {
    let files = vec![
        entry("S1Game/B/z.upk", "h3", 5),
        entry("S1Game/A/x.upk", "h1", 1),
        entry("S1Game/B/b.upk", "h2", 7),
        entry("S1Game/B/y.upk", "h4", 2),
    ];
    let ds = directory_summaries(&files);
    assert_eq!(ds.len(), 2);
    assert_eq!(ds[0].path, "S1Game/B");
    assert_eq!(ds[0].file_count, 3);
    assert_eq!(ds[0].total_size, 14);
    assert_eq!(ds[0].hash, dir_hash(&["h2", "h4", "h3"]));
    assert_eq!(ds[1].path, "S1Game/A");
    assert_eq!(ds[1].file_count, 1);
    assert_eq!(ds[1].total_size, 1);
    assert_eq!(ds[1].hash, dir_hash(&["h1"]));
    let count: usize = ds.iter().map(|d| d.file_count).sum();
    let size: u64 = ds.iter().map(|d| d.total_size).sum();
    assert_eq!(count, files.len());
    assert_eq!(size, 15);
}

#[test]
fn no_files_no_directories() {
    assert_eq!(directory_summaries(&Vec::new()).len(), 0);
}

#[test]
fn fresh_entry_accepts_its_own_contents() {
    let data = b"some game data";
    let f = hash_file_entry("CookedPC/x.upk", data, "http://files");
    assert_eq!(verify_download(&f, data), Ok(data.len() as u64));
    assert!(verify_download(&f, b"other data").is_err());
}

#[test]
fn fresh_manifest_with_unchanged_files_selects_nothing() {
    let files = vec![
        hash_file_entry("A\\1.upk", b"one", "http://f"),
        hash_file_entry("B\\2.upk", b"two!", "http://f"),
        hash_file_entry("A\\3.upk", b"three", "http://f"),
    ];
    let dirs: Vec<DirectoryEntry> = directory_summaries(&files)
        .into_iter()
        .map(|d| DirectoryEntry { path: d.path, file_count: d.file_count })
        .collect();
    let sizes: Vec<Option<u64>> = files.iter().map(|f| Some(f.size)).collect();
    let m = HashManifest { files, directories: Some(dirs) };
    assert_eq!(select_files_to_check(&m, &sizes), Vec::<usize>::new());
}
