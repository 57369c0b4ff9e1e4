use teralaunch::config::{first_existing, game_config, game_path_error_message, game_section_entries, GameSection};
use teralaunch::login::{
    check_login_response, cookie_to_restore, endpoint_url, login_payload, restore_cookie, session_cookie_from_header,
    session_cookie_string, Endpoint, InitialLoginResponse,
};
use teralaunch::maintenance::{check_maintenance_response, is_maintenance_active, network_check_error, MaintenanceResponse};
use teralaunch::numfmt::{byte_unit, i32_to_string, u64_to_string};
use teralaunch::selfupdate::{update_file_name, update_script};

#[test]
fn endpoint_addresses() {
    let b = "https://acc.example.com";
    assert_eq!(endpoint_url(b, Endpoint::Login), "https://acc.example.com/launcher/LoginAction");
    assert_eq!(endpoint_url(b, Endpoint::AuthKey), "https://acc.example.com/launcher/GetAuthKeyAction");
    assert_eq!(endpoint_url(b, Endpoint::MainPage), "https://acc.example.com/launcher/Main?locale=en");
    assert_eq!(endpoint_url(b, Endpoint::MainPageRefresh), "https://acc.example.com/launcher/Main");
    assert_eq!(endpoint_url(b, Endpoint::Signup), "https://acc.example.com/launcher/SignupAction?launcher=true");
    assert_eq!(endpoint_url(b, Endpoint::MaintenanceStatus), "https://acc.example.com/launcher/GetMaintenanceStatusAction");
}

#[test]
fn login_form_is_written_as_is() {
    assert_eq!(login_payload("bob", "p&w"), "login=bob&password=p&w");
}

#[test]
fn session_cookie_is_found_in_the_header() {
    assert_eq!(session_cookie_from_header("a=1; launcher.sid=XYZ; b=2"), Some("XYZ".to_string()));
    assert_eq!(session_cookie_from_header("launcher.sid=launcher.sid=Q"), Some("Q".to_string()));
    assert_eq!(session_cookie_from_header("a=1;b=2"), None);
    assert_eq!(session_cookie_from_header(""), None);
}

#[test]
fn stored_session_is_restored_with_the_host() {
    assert_eq!(cookie_to_restore(Some(String::new())), None);
    assert_eq!(cookie_to_restore(Some("s".to_string())), Some("s".to_string()));
    assert_eq!(session_cookie_string("abc", "h.example"), "launcher.sid=abc; Domain=h.example; Path=/");
    assert_eq!(
        restore_cookie(Some("abc".to_string()), "https://acc.example.com:8080/x"),
        Ok(Some("launcher.sid=abc; Domain=acc.example.com; Path=/".to_string()))
    );
    assert_eq!(restore_cookie(None, "not a url"), Ok(None));
    assert_eq!(restore_cookie(Some(String::new()), "not a url"), Ok(None));
    assert_eq!(restore_cookie(Some("a".to_string()), "not a url"), Err("Failed to parse LAUNCHER_BASE_URL".to_string()));
    assert_eq!(restore_cookie(Some("a".to_string()), "data:text/plain,x"), Err("LAUNCHER_BASE_URL has no host".to_string()));
}

#[test]
fn login_answer_is_checked() {
    let ok = InitialLoginResponse { return_value: true, msg: "success".to_string(), return_code: 0 };
    assert_eq!(check_login_response(ok), Ok((0, "success".to_string())));
    let refused = InitialLoginResponse { return_value: false, msg: "bad password".to_string(), return_code: 7 };
    assert_eq!(check_login_response(refused), Err("bad password".to_string()));
}

#[test]
fn configuration_errors() {
    assert_eq!(game_config(false, None), Err("Config file not found".to_string()));
    assert_eq!(game_config(true, None), Err("Game section not found in config".to_string()));
    let no_path = GameSection { path: None, lang: Some("EUR".to_string()) };
    assert_eq!(game_config(true, Some(no_path)), Err("Game path not found in config".to_string()));
    let no_lang = GameSection { path: Some("C:\\TERA".to_string()), lang: None };
    assert_eq!(game_config(true, Some(no_lang)), Err("Game language not found in config".to_string()));
    let full = GameSection { path: Some("C:\\TERA".to_string()), lang: Some("GER".to_string()) };
    assert_eq!(game_config(true, Some(full)), Ok(("C:\\TERA".to_string(), "GER".to_string())));
    assert_eq!(game_path_error_message("Config file not found".to_string()), "tera_config.ini is missing");
    assert_eq!(game_path_error_message("other".to_string()), "other");
    let entries = game_section_entries("D:\\Games".to_string());
    assert_eq!(entries, vec![("lang".to_string(), "EUR".to_string()), ("path".to_string(), "D:\\Games".to_string())]);
    assert_eq!(first_existing(&vec![false, true, true]), Some(1));
    assert_eq!(first_existing(&vec![false, false]), None);
}

fn maint(ok: bool, start: Option<u64>, end: Option<u64>) -> MaintenanceResponse {
    MaintenanceResponse { return_value: ok, return_code: 0, msg: "m".to_string(), start_time: start, end_time: end }
}

#[test]
fn maintenance_answers() {
    assert_eq!(check_maintenance_response(maint(false, None, None)).err(), Some("Maintenance check API error: m".to_string()));
    assert!(check_maintenance_response(maint(true, None, None)).is_ok());
    assert!(!is_maintenance_active(&maint(true, None, None)));
    assert!(is_maintenance_active(&maint(true, Some(1), None)));
    assert!(is_maintenance_active(&maint(true, None, Some(2))));
    assert_eq!(network_check_error("boom"), "ERROR_NETWORK_CHECK: boom");
}

#[test]
fn numbers_as_text() {
    for n in [0u64, 9, 10, 12345, u64::MAX].iter() {
        assert_eq!(u64_to_string(*n), n.to_string());
    }
    for n in [0i32, -1, 42, i32::MIN, i32::MAX].iter() {
        assert_eq!(i32_to_string(*n), n.to_string());
    }
}

#[test]
fn byte_units() {
    assert_eq!(byte_unit(0), (0, "B".to_string()));
    assert_eq!(byte_unit(1023), (0, "B".to_string()));
    assert_eq!(byte_unit(1024), (1, "KB".to_string()));
    assert_eq!(byte_unit(5 * 1024 * 1024), (2, "MB".to_string()));
    assert_eq!(byte_unit(u64::MAX), (3, "GB".to_string()));
}

#[test]
fn self_update_script() {
    assert_eq!(update_file_name(), "teralauncher_update.exe");
    let exe_name = "teralauncher.exe.exe";
    let current = "C:\\L\\teralauncher.exe";
    let upd = "C:\\L\\teralauncher_update.exe";
    let expected = format!(
        r#"
Start-Sleep -Seconds 2

# Wait for the launcher process to exit
while (Get-Process -Name "{}" -ErrorAction SilentlyContinue) {{
    Start-Sleep -Milliseconds 500
}}

# Apply update
$oldPath = "{}.old"
$currentPath = "{}"
$updatePath = "{}"

if (Test-Path $oldPath) {{ Remove-Item -Force $oldPath }}
if (Test-Path $currentPath) {{ Rename-Item -Path $currentPath -NewName "$currentPath.old" -Force }}
Move-Item -Path $updatePath -Destination $currentPath -Force

# Start the updated launcher
Start-Process -FilePath $currentPath

# Cleanup
Start-Sleep -Seconds 2
if (Test-Path $oldPath) {{ Remove-Item -Force $oldPath }}
Remove-Item -Force $MyInvocation.MyCommand.Path
"#,
        exe_name.trim_end_matches(".exe"),
        current,
        current,
        upd
    );
    assert_eq!(update_script(exe_name, current, upd), expected);
}
