use browser_scan::get_browsers;
use browser_scan::get_executable_browsers;
use browser_scan::linux::CacheRead;
use browser_scan::linux::DesktopFileData;
use browser_scan::linux::LinuxScan;
use browser_scan::Browser;
use browser_scan::BrowserError;
use browser_scan::PlatformScan;

fn desktop_file(name: &str, content: &str) -> DesktopFileData {
    DesktopFileData {
        file_name: name.to_string(),
        content: Some(content.to_string()),
        path_lookup: None,
    }
}

fn firefox_scan() -> LinuxScan {
    LinuxScan {
        cache_reads: vec![
            CacheRead::Missing,
            CacheRead::Content(
                "text/html=other.desktop;\nx-scheme-handler/http=firefox.desktop;\n".to_string(),
            ),
        ],
        dirs: vec![vec![
            desktop_file(
                "firefox.desktop",
                "[Desktop Entry]\nName=Firefox\nExec=/usr/bin/firefox %u\n",
            ),
            desktop_file("ignored.desktop", "Name=Other\nExec=/usr/bin/other\n"),
        ]],
    }
}

#[test]
fn print_browsers() {
    let browsers = get_browsers(&PlatformScan::Linux(firefox_scan())).unwrap();
    for browser in &browsers {
        println!("Browser: {}\n Exec: {:?}", browser.name, browser.exec_path);
    }
    assert!(!browsers.is_empty(), "No browsers found");
}

#[test]
fn print_executable_browsers() {
    let browsers = get_browsers(&PlatformScan::Linux(firefox_scan())).unwrap();
    let flags: Vec<bool> = browsers.iter().map(|_| true).collect();
    let browsers = get_executable_browsers(browsers, &flags);
    for browser in &browsers {
        println!("Executable Browser: {}\n Exec: {:?}", browser.name, browser.exec_path);
        assert!(browser.name == "Firefox", "Browser should exist");
    }
}

#[test]
fn scan_yields_firefox() {
    let browsers = get_browsers(&PlatformScan::Linux(firefox_scan())).unwrap();
    assert_eq!(browsers.len(), 1);
    assert_eq!(browsers[0].name, "Firefox");
    assert_eq!(browsers[0].exec_path, "/usr/bin/firefox");
}

#[test]
fn placeholders_are_stripped() {
    let resolved =
        browser_scan::linux::resolve_executable_path("/usr/bin/foo %U --flag".to_string(), &None);
    assert!(!resolved.contains("%u"));
    assert!(!resolved.contains("%U"));
    assert_eq!(resolved, "/usr/bin/foo  --flag");
}

#[test]
fn flatpak_identifier_is_extracted() {
    let resolved = browser_scan::linux::resolve_executable_path(
        "/usr/bin/flatpak run --branch=stable org.example.App @@u %u @@".to_string(),
        &None,
    );
    assert_eq!(resolved, "org.example.App");
}

#[test]
fn flatpak_cut_stops_at_separator() {
    let cut = browser_scan::linux::sanitize_flatpak_exec(
        "/usr/bin/flatpak run org.example.App @@u %u @@".to_string(),
    );
    assert_eq!(cut, "/usr/bin/flatpak run org.example.App");
}

#[test]
fn sanitize_removes_both_placeholder_cases() {
    assert_eq!(
        browser_scan::linux::sanitize_exec_path("/usr/bin/foo %U --flag %u".to_string()),
        "/usr/bin/foo  --flag "
    );
}

#[test]
fn relative_command_uses_lookup_output() {
    let resolved = browser_scan::linux::resolve_executable_path(
        "firefox %u".to_string(),
        &Some("/usr/bin/firefox\n".to_string()),
    );
    assert_eq!(resolved, "/usr/bin/firefox");
}

#[test]
fn relative_command_without_lookup_stays_relative() {
    let resolved = browser_scan::linux::resolve_executable_path("firefox %u".to_string(), &None);
    assert_eq!(resolved, "firefox");
}

#[test]
fn field_extraction_finds_first_line() {
    let content = "Comment=x\nName=Firefox\nName=Shadowed\nExec=/usr/bin/firefox\n";
    assert_eq!(
        browser_scan::linux::extract_field_from_desktop_file("Name=", content),
        Some("Firefox".to_string())
    );
    assert_eq!(
        browser_scan::linux::extract_field_from_desktop_file("Exec=", content),
        Some("/usr/bin/firefox".to_string())
    );
    assert_eq!(browser_scan::linux::extract_field_from_desktop_file("Icon=", content), None);
}

#[test]
fn entry_without_exec_is_skipped() {
    assert!(browser_scan::linux::parse_desktop_entry("Name=OnlyName\n", &None).is_none());
    assert!(browser_scan::linux::parse_desktop_entry("Exec=/usr/bin/x\n", &None).is_none());
}

#[test]
fn mimeinfo_extraction_splits_handlers() {
    let mut handlers: Vec<String> = Vec::new();
    browser_scan::linux::extract_browsers_from_mimeinfo(
        "text/html=x.desktop\nx-scheme-handler/http=a.desktop;b.desktop;\n",
        &mut handlers,
    );
    assert_eq!(handlers, vec!["a.desktop".to_string(), "b.desktop".to_string(), "".to_string()]);
}

#[test]
fn mimeinfo_without_http_handler_adds_nothing() {
    let mut handlers: Vec<String> = Vec::new();
    browser_scan::linux::extract_browsers_from_mimeinfo("text/html=x.desktop\n", &mut handlers);
    assert!(handlers.is_empty());
}

#[test]
fn unreadable_cache_is_an_io_error() {
    let scan = LinuxScan { cache_reads: vec![CacheRead::Unreadable], dirs: vec![] };
    let result = get_browsers(&PlatformScan::Linux(scan));
    assert_eq!(result.unwrap_err(), BrowserError::Io);
}

#[test]
fn missing_sources_yield_empty_success() {
    let scan = LinuxScan {
        cache_reads: vec![CacheRead::Missing, CacheRead::Missing, CacheRead::Missing],
        dirs: vec![],
    };
    let browsers = get_browsers(&PlatformScan::Linux(scan)).unwrap();
    assert!(browsers.is_empty());
}

#[test]
fn unsupported_platform_is_an_error() {
    let result = get_browsers(&PlatformScan::Unsupported);
    assert_eq!(result.unwrap_err(), BrowserError::UnsupportedOs);
}

#[test]
fn later_directory_wins_dedup() {
    let scan = LinuxScan {
        cache_reads: vec![CacheRead::Content(
            "x-scheme-handler/http=one.desktop;two.desktop\n".to_string(),
        )],
        dirs: vec![
            vec![desktop_file("one.desktop", "Name=Browser\nExec=/usr/bin/one\n")],
            vec![desktop_file("two.desktop", "Name=Browser\nExec=/usr/bin/two\n")],
        ],
    };
    let browsers = get_browsers(&PlatformScan::Linux(scan)).unwrap();
    assert_eq!(browsers.len(), 1);
    assert_eq!(browsers[0].name, "Browser");
    assert_eq!(browsers[0].exec_path, "/usr/bin/two");
}

#[test]
fn unreadable_entry_file_is_skipped() {
    let scan = LinuxScan {
        cache_reads: vec![CacheRead::Content(
            "x-scheme-handler/http=one.desktop\n".to_string(),
        )],
        dirs: vec![vec![DesktopFileData {
            file_name: "one.desktop".to_string(),
            content: None,
            path_lookup: None,
        }]],
    };
    let browsers = get_browsers(&PlatformScan::Linux(scan)).unwrap();
    assert!(browsers.is_empty());
}

#[test]
fn executable_filter_keeps_flagged_only() {
    let browsers = vec![
        Browser { name: "A".to_string(), exec_path: "/bin/a".to_string() },
        Browser { name: "B".to_string(), exec_path: "/bin/b".to_string() },
        Browser { name: "C".to_string(), exec_path: "/bin/c".to_string() },
    ];
    let flags = vec![true, false, true];
    let kept = get_executable_browsers(browsers, &flags);
    let names: Vec<&str> = kept.iter().map(|b| b.name.as_str()).collect();
    assert_eq!(names, vec!["A", "C"]);
}

#[test]
fn handler_value_keeps_embedded_equals() {
    let mut handlers: Vec<String> = Vec::new();
    browser_scan::linux::extract_browsers_from_mimeinfo(
        "x-scheme-handler/http=a.desktop=b.desktop\n",
        &mut handlers,
    );
    assert_eq!(handlers, vec!["a.desktop=b.desktop".to_string()]);
}

#[test]
fn handler_key_must_match_exactly() {
    let mut handlers: Vec<String> = Vec::new();
    browser_scan::linux::extract_browsers_from_mimeinfo(
        "x-scheme-handler/https=secure.desktop\nx-scheme-handler/http=plain.desktop\n",
        &mut handlers,
    );
    assert_eq!(handlers, vec!["plain.desktop".to_string()]);

    let mut none: Vec<String> = Vec::new();
    browser_scan::linux::extract_browsers_from_mimeinfo(
        "x-scheme-handler/https=secure.desktop\n",
        &mut none,
    );
    assert!(none.is_empty());
}

#[test]
fn crlf_lines_are_handled() {
    let content = "Name=Firefox\r\nExec=/usr/bin/firefox\r\n";
    assert_eq!(
        browser_scan::linux::extract_field_from_desktop_file("Name=", content),
        Some("Firefox".to_string())
    );
}

#[test]
fn prefix_is_stripped_once() {
    assert_eq!(
        browser_scan::linux::extract_field_from_desktop_file("Name=", "Name=Name=x\n"),
        Some("Name=x".to_string())
    );
}

#[test]
fn lookup_wanted_only_for_relative_commands() {
    assert_eq!(
        browser_scan::linux::lookup_argument("firefox %u".to_string()),
        Some("firefox".to_string())
    );
    assert_eq!(browser_scan::linux::lookup_argument("/usr/bin/firefox %u".to_string()), None);
    assert_eq!(
        browser_scan::linux::lookup_argument("/usr/bin/flatpak run org.example.App".to_string()),
        None
    );
}

#[test]
fn mimeinfo_paths_cover_all_tiers() {
    let paths = browser_scan::linux::get_mimeinfo_paths(&Some("/home/someone".to_string()));
    assert_eq!(
        paths,
        vec![
            "/usr/share/applications/mimeinfo.cache".to_string(),
            "/var/lib/flatpak/exports/share/applications/mimeinfo.cache".to_string(),
            "/home/someone/.local/share/applications/mimeinfo.cache".to_string(),
        ]
    );
    assert_eq!(browser_scan::linux::get_desktop_paths(&None).len(), 2);
}
