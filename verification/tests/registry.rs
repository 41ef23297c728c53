use browser_scan::windows::extract_executable_path;
use browser_scan::windows::RegistryEntry;

fn entry(key: &str, display: Option<&str>, command: Option<&str>) -> RegistryEntry {
    RegistryEntry {
        key_name: key.to_string(),
        display_name: display.map(|s| s.to_string()),
        open_command: command.map(|s| s.to_string()),
    }
}

#[test]
fn quoted_command_takes_first_quoted_segment() {
    let path = extract_executable_path("\"C:\\Program Files\\Browser\\browser.exe\" -- \"%1\"");
    assert_eq!(path, "C:\\Program Files\\Browser\\browser.exe");
}

#[test]
fn unquoted_command_takes_first_token() {
    let path = extract_executable_path("C:\\Browser\\browser.exe %1");
    assert_eq!(path, "C:\\Browser\\browser.exe");
}

#[test]
fn empty_command_gives_empty_path() {
    assert_eq!(extract_executable_path(""), "");
    assert_eq!(extract_executable_path("   "), "");
}

#[test]
fn iexplore_is_excluded_in_any_case() {
    let machine = Some(vec![
        entry("IEXPLORE.EXE", Some("Internet Explorer"), Some("C:\\ie.exe")),
        entry("IExplore.exe", Some("Internet Explorer"), Some("C:\\ie.exe")),
        entry("Firefox", Some("Mozilla Firefox"), Some("\"C:\\ff.exe\" %1")),
    ]);
    let browsers = browser_scan::windows::get_browsers(&machine, &None).unwrap();
    assert_eq!(browsers.len(), 1);
    assert_eq!(browsers[0].name, "Mozilla Firefox");
    assert_eq!(browsers[0].exec_path, "C:\\ff.exe");
}

#[test]
fn display_name_falls_back_to_key_name() {
    let machine = Some(vec![entry("Chromium", None, Some("C:\\chromium.exe"))]);
    let browsers = browser_scan::windows::get_browsers(&machine, &None).unwrap();
    assert_eq!(browsers.len(), 1);
    assert_eq!(browsers[0].name, "Chromium");
}

#[test]
fn entry_without_command_is_skipped() {
    let machine = Some(vec![entry("Broken", Some("Broken Browser"), None)]);
    let browsers = browser_scan::windows::get_browsers(&machine, &None).unwrap();
    assert!(browsers.is_empty());
}

#[test]
fn current_user_overrides_machine() {
    let machine = Some(vec![entry("Firefox", Some("Firefox"), Some("C:\\machine\\ff.exe"))]);
    let user = Some(vec![entry("Firefox", Some("Firefox"), Some("C:\\user\\ff.exe"))]);
    let browsers = browser_scan::windows::get_browsers(&machine, &user).unwrap();
    assert_eq!(browsers.len(), 1);
    assert_eq!(browsers[0].exec_path, "C:\\user\\ff.exe");
}

#[test]
fn missing_roots_yield_empty_success() {
    let browsers = browser_scan::windows::get_browsers(&None, &None).unwrap();
    assert!(browsers.is_empty());
}
