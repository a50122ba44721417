use linkd::autostart::{autostart_enabled, set_autostart};
use linkd::shortcuts::shortcuts_installed;

const ENTRY: &str = "[Desktop Entry]\nType=Application\nName=Linux Link\nExec=linux-link-gui\n";

#[test]
fn an_entry_without_flags_starts() {
    assert!(autostart_enabled(ENTRY));
    assert!(!autostart_enabled("[Desktop Entry]\n  HIDDEN=True \n"));
    assert!(autostart_enabled("[Desktop Entry]\nHidden=false\n"));
}

#[test]
fn turning_autostart_off_and_on() {
    let off = set_autostart(ENTRY, false);
    assert_eq!(
        off,
        "[Desktop Entry]\nType=Application\nName=Linux Link\nExec=linux-link-gui\nHidden=true\nX-GNOME-Autostart-enabled=false\n"
    );
    assert!(!autostart_enabled(&off));
    let on = set_autostart(&off, true);
    assert_eq!(
        on,
        "[Desktop Entry]\nType=Application\nName=Linux Link\nExec=linux-link-gui\nX-GNOME-Autostart-enabled=true\n"
    );
    assert!(autostart_enabled(&on));
    let crlf = set_autostart("[Desktop Entry]\r\nhidden=TRUE\r\n", true);
    assert_eq!(crlf, "[Desktop Entry]\nX-GNOME-Autostart-enabled=true\n");
}

#[test]
fn the_shortcuts_status_line_is_read() {
    assert!(shortcuts_installed("Desktop   : GNOME\nShortcuts : installed\n"));
    assert!(!shortcuts_installed("Desktop   : GNOME\nShortcuts : not installed\n"));
}
