use aur_browser::install::{install_script, terminal_candidate, InstallControl, Terminal, COOLDOWN_SECONDS, TERMINAL_COUNT};
use aur_browser::request::{info_url, recent_url, search_url};

#[test]
fn search_url_encodes_query() {
    assert_eq!(
        search_url("hello world/ü"),
        "https://aur.archlinux.org/rpc?v=5&type=search&arg=hello%20world%2F%C3%BC"
    );
    assert_eq!(search_url("a-b_c.d~e"), "https://aur.archlinux.org/rpc?v=5&type=search&arg=a-b_c.d~e");
    assert_eq!(search_url(""), "https://aur.archlinux.org/rpc?v=5&type=search&arg=");
}

#[test]
fn info_and_recent_urls() {
    assert_eq!(info_url("c++"), "https://aur.archlinux.org/rpc?v=5&type=info&arg=c%2B%2B");
    assert_eq!(recent_url(), "https://aur.archlinux.org/rpc?v=5&type=search&by=name&arg=");
}

#[test]
fn install_button_cools_down() {
    let mut c = InstallControl::Ready;
    assert!(c.is_enabled());
    assert_eq!(c.label(false), "Install");
    assert_eq!(c.label(true), "Reinstall");
    assert!(c.press());
    assert!(!c.is_enabled());
    assert_eq!(c.label(false), "Opening terminal...");
    assert!(!c.press());
    c.cooldown_elapsed();
    assert!(c.is_enabled());
    assert_eq!(COOLDOWN_SECONDS, 2);
}

#[test]
fn install_script_text() {
    assert_eq!(install_script("yay-bin"), "yay -S --needed yay-bin; echo '\nPress Enter to close...'; read");
}

#[test]
fn terminal_order_and_arguments() {
    let order: Vec<String> = (0..TERMINAL_COUNT).map(|i| terminal_candidate(i).program()).collect();
    assert_eq!(order, vec!["alacritty", "kitty", "wezterm", "konsole", "gnome-terminal", "xterm"]);
    assert_eq!(Terminal::Wezterm.launch_args("x"), vec!["start", "--", "sh", "-c", "x"]);
    assert_eq!(Terminal::GnomeTerminal.launch_args("x"), vec!["--", "sh", "-c", "x"]);
    assert_eq!(Terminal::Xterm.launch_args("x"), vec!["-e", "sh", "-c", "x"]);
}
