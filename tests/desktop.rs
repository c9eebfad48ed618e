use wayfindr::config::{should_log, LogLevel};
use wayfindr::desktop::DesktopApp;
use wayfindr::execution::{application_command, kitty_cd_command, shell_quote, DirectoryAutocomplete, ExecutionService};
use wayfindr::interfaces::{parse_interface, InterfaceType, RofiInterface};
use wayfindr::types::{ActionResult, ProviderError};
use wayfindr::usage::UsageService;
use wayfindr::usage_report::{generate_app_id, resolve_app_name};
use wayfindr::utils::generate_id;

const FIREFOX: &str = "[Desktop Entry]\nName=Firefox\nComment=Browse the Web\nExec=firefox %u\nIcon=firefox\nCategories=Network;WebBrowser;\nTerminal=false\n\n[Desktop Action new-window]\nName=New Window\nExec=firefox --new-window %u\n";

#[test]
fn desktop_entry_reads_main_group_only() {
    let app = DesktopApp::from_desktop_entry(FIREFOX).unwrap();
    assert_eq!(app.name, "Firefox");
    assert_eq!(app.command, "firefox %u");
    assert_eq!(app.comment, Some("Browse the Web".to_string()));
    assert_eq!(app.icon, Some("firefox".to_string()));
    assert_eq!(app.categories, vec!["Network", "WebBrowser"]);
    assert!(!app.terminal);
    assert!(!app.no_display);
    assert_eq!(app.clean_exec_command(), "firefox");
}

#[test]
fn desktop_entry_needs_name_and_command_and_display() {
    assert!(DesktopApp::from_desktop_entry("[Desktop Entry]\nName=Only\n").is_none());
    assert!(DesktopApp::from_desktop_entry("[Desktop Entry]\nExec=only\n").is_none());
    assert!(DesktopApp::from_desktop_entry("[Desktop Entry]\nName=X\nExec=x\nNoDisplay=TRUE\n").is_none());
    assert!(DesktopApp::from_desktop_entry("Name=X\nExec=x\n").is_none());
    let app = DesktopApp::from_desktop_entry("  [Desktop Entry]  \r\n# c\n Name = spaced\nName=Top\nExec=htop\nTerminal=True\n").unwrap();
    assert_eq!(app.name, "Top");
    assert!(app.terminal);
}

#[test]
fn exec_line_loses_field_codes_and_extra_space() {
    let app = DesktopApp {
        name: "Code".to_string(),
        command: "  code   --new-window %F  %U ".to_string(),
        icon: None,
        comment: None,
        categories: vec![],
        no_display: false,
        terminal: false,
    };
    assert_eq!(app.clean_exec_command(), "code --new-window");
}

#[test]
fn launch_commands() {
    assert_eq!(shell_quote("it's"), "'it'\\''s'");
    assert_eq!(kitty_cd_command("/home/u/my dir"), "kitty -d '/home/u/my dir' $SHELL");
    assert_eq!(application_command("htop", true), Some("kitty -e htop".to_string()));
    assert_eq!(application_command("firefox", false), Some("firefox".to_string()));
    assert_eq!(application_command("   ", false), None);
    let service = ExecutionService::new();
    assert_eq!(service.launch_command("alacritty", "htop", true), "alacritty -e htop");
    assert_eq!(service.launch_command("alacritty", "gimp", false), "gimp");
    assert_eq!(service.navigate_command("foot", "/tmp"), "foot -d '/tmp' $SHELL");
}

#[test]
fn path_like_input() {
    let complete = DirectoryAutocomplete::new();
    assert!(complete.looks_like_path("/usr"));
    assert!(complete.looks_like_path("~/Doc"));
    assert!(complete.looks_like_path("src/lib"));
    assert!(!complete.looks_like_path("firefox"));
}

#[test]
fn interface_names() {
    assert_eq!(parse_interface("TUI"), Ok(InterfaceType::Tui));
    assert_eq!(parse_interface("terminal"), Ok(InterfaceType::Tui));
    assert_eq!(parse_interface("Rofi"), Ok(InterfaceType::Rofi));
    assert_eq!(parse_interface("gtk"), Err("Unknown interface type: gtk".to_string()));
}

#[test]
fn rofi_lines() {
    let rofi = RofiInterface::new();
    assert_eq!(rofi.get_provider_tag("applications"), "APP");
    assert_eq!(rofi.get_provider_tag("weather"), "WTH");
    assert_eq!(rofi.get_provider_tag("other"), "EXT");
    assert_eq!(rofi.truncate("abcdefghij", 8), "abcde...");
    assert_eq!(rofi.truncate("short", 8), "short");
    let plain = ActionResult::new_launch("id".to_string(), "applications".to_string(), "Files".to_string(), "nautilus".to_string(), false);
    assert_eq!(rofi.format_result(&plain), "🚀 Files [APP]");
    let described = plain.with_description("Manage files".to_string());
    assert_eq!(rofi.format_result(&described), "🚀 Files - Manage files [APP]");
}

#[test]
fn log_levels() {
    assert!(should_log(LogLevel::Info, LogLevel::Error));
    assert!(should_log(LogLevel::Info, LogLevel::Info));
    assert!(!should_log(LogLevel::Info, LogLevel::Debug));
    assert!(should_log(LogLevel::Debug, LogLevel::Debug));
    assert!(!should_log(LogLevel::Off, LogLevel::Error));
    assert!(!should_log(LogLevel::Error, LogLevel::Warn));
}

#[test]
fn error_messages() {
    assert_eq!(ProviderError::Network("down".to_string()).message(), "Network error: down");
    assert_eq!(
        ProviderError::Api { status: 404, message: "gone".to_string() }.message(),
        "API error: 404 - gone"
    );
    assert_eq!(ProviderError::Unavailable("no key".to_string()).message(), "Provider unavailable: no key");
}

#[test]
fn rofi_menu_order() {
    let rofi = RofiInterface::new();
    let app = |title: &str| {
        ActionResult::new_launch(generate_id("app", title), "applications".to_string(), title.to_string(), title.to_lowercase(), false)
    };
    let dir = ActionResult::new_navigate("dir_1".to_string(), "directories".to_string(), "Home".to_string(), "/home/u".to_string());
    let other = ActionResult::new_launch("x_1".to_string(), "weather".to_string(), "Weather".to_string(), "w".to_string(), false);
    let mut usage = UsageService::new();
    usage.record_usage(&generate_id("app", "Zed"), 0);
    let ordered = rofi.order_menu(vec![other, dir, app("Atom"), app("Zed"), app("Atom")], &usage);
    let titles: Vec<&str> = ordered.iter().map(|r| r.title.as_str()).collect();
    assert_eq!(titles, vec!["Zed", "Atom", "Home", "Weather"]);
}

#[test]
fn usage_report_names() {
    let names = vec![(generate_app_id("Files"), "Files".to_string())];
    assert_eq!(resolve_app_name(&generate_app_id("Files"), &names), "Files");
    assert_eq!(resolve_app_name(&generate_app_id("firefox"), &names), "Firefox");
    assert_eq!(resolve_app_name("dir_abc", &names), "dir_abc");
    assert_eq!(resolve_app_name("app_0123456789", &names), "App (01234567)");
    assert_eq!(resolve_app_name("app_12", &names), "App (12)");
    assert_eq!(generate_app_id("Files"), generate_id_for("Files"));
}

fn generate_id_for(name: &str) -> String {
    wayfindr::utils::generate_id("app", name)
}

#[test]
fn rofi_truncate_counts_bytes() {
    let rofi = RofiInterface::new();
    assert_eq!(rofi.truncate("éééééé", 7), "éé...");
    assert_eq!(rofi.truncate("  ab  ", 6), "  ab  ");
}
