use teralaunch::capture::capture_file_name;
use teralaunch::toolbox::{
    archive_entry_target, is_directory_entry, kill_command, launch_command, remove_command, removal_failed_message,
    toolbox_base_url, toolbox_process_ids, toolbox_running, toolbox_zip_url,
};

#[test]
fn toolbox_addresses() {
    assert_eq!(toolbox_base_url("http://f.example/TeraDirect/files"), "http://f.example/Neolithic/files");
    assert_eq!(toolbox_base_url("http://f.example/other"), "http://f.example/other");
    assert_eq!(toolbox_zip_url("http://b", 1700000000), "http://b/Toolbox.zip?t=1700000000");
}

#[test]
fn archive_entries() {
    let parts = vec!["neolithic-TB-main".to_string(), "bin".to_string(), "x.dll".to_string()];
    assert_eq!(archive_entry_target(parts), Some(vec!["bin".to_string(), "x.dll".to_string()]));
    assert_eq!(archive_entry_target(vec!["top".to_string()]), None);
    assert_eq!(archive_entry_target(vec![]), None);
    assert!(is_directory_entry("top/bin/"));
    assert!(!is_directory_entry("top/bin/x.dll"));
    assert!(!is_directory_entry(""));
}

#[test]
fn running_toolbox_is_recognized() {
    let list = "C:\\Windows\\explorer.exe\r\nC:\\TERA\\Toolbox\\TeraToolbox.exe\r\n";
    assert!(toolbox_running(list, "C:\\TERA\\Toolbox"));
    assert!(!toolbox_running("C:\\Windows\\explorer.exe\n", "C:\\TERA\\Toolbox"));
    assert!(toolbox_running("D:\\x\\Binaries\\Toolbox\\node.exe", "C:\\nowhere"));
}

#[test]
fn process_ids_are_read_from_the_query() {
    let out = "\r\n\r\nProcessId=1234\r\n\r\nProcessId= 56 \r\nProcessId=\r\nProcessId=7a\r\nName=x\r\n";
    assert_eq!(toolbox_process_ids(out), vec!["1234".to_string(), "56".to_string()]);
    assert!(toolbox_process_ids("").is_empty());
}

#[test]
fn toolbox_commands() {
    assert_eq!(kill_command("1234"), "taskkill /F /T /PID 1234");
    assert_eq!(
        launch_command("C:\\T\\TeraToolbox.exe", "C:\\T"),
        "Start-Process -FilePath 'C:\\T\\TeraToolbox.exe' -WorkingDirectory 'C:\\T' -Verb RunAs"
    );
    assert_eq!(remove_command("C:\\T"), "Remove-Item -Path 'C:\\T' -Recurse -Force -ErrorAction Stop");
    assert_eq!(
        removal_failed_message("denied"),
        "Failed to remove Toolbox folder. Please ensure TeraToolbox is closed and try again.\n\nError: denied"
    );
}

#[test]
fn only_event_six_is_saved() {
    assert_eq!(capture_file_name(6, 1700000000), Some("event6_working_1700000000.bin".to_string()));
    assert_eq!(capture_file_name(5, 1700000000), None);
}
