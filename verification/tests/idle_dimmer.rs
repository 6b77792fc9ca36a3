use legion83::kbd_idle::{config_text, daemon_timeout, timeout_ms, timeout_secs, unit_commands, Backlight, UNIT};

#[test]
fn gui_timeout_from_config() {
    assert_eq!(timeout_secs(Some("timeout=12\n")), 12);
    assert_eq!(timeout_secs(Some(" timeout = 7 ")), 7);
    assert_eq!(timeout_secs(Some("other=1\ntimeout=3")), 3);
    // the first timeout line decides, even when it does not parse
    assert_eq!(timeout_secs(Some("timeout=abc\ntimeout=3")), 5);
    assert_eq!(timeout_secs(Some("x=1")), 5);
    assert_eq!(timeout_secs(None), 5);
    assert_eq!(config_text(7), "timeout=7\n");
    assert_eq!(timeout_secs(Some(&config_text(-4))), -4);
}

#[test]
fn unit_switching_commands() {
    assert_eq!(unit_commands(true), vec![vec!["enable", "--now", UNIT], vec!["restart", UNIT]]);
    assert_eq!(unit_commands(false), vec![vec!["disable", "--now", UNIT]]);
}

fn args(a: &[&str]) -> Vec<String> {
    a.iter().map(|s| s.to_string()).collect()
}

#[test]
fn daemon_timeout_sources() {
    assert_eq!(daemon_timeout(&args(&["--timeout", "9"]), Some("timeout=3")), 9);
    assert_eq!(daemon_timeout(&args(&["--timeout", "x", "--timeout", "4"]), None), 4);
    assert_eq!(daemon_timeout(&args(&["--timeout", "--timeout", "4"]), None), 5);
    assert_eq!(daemon_timeout(&args(&["--timeout"]), Some("timeout=3")), 3);
    assert_eq!(daemon_timeout(&args(&["-v"]), Some("timeout=-3")), 5);
    assert_eq!(daemon_timeout(&args(&[]), None), 5);
    assert_eq!(timeout_ms(5), 5000);
    assert_eq!(timeout_ms(4_294_968), 704);
}

#[test]
fn idle_then_resume_restores_level() {
    let mut b = Backlight::new(2);
    assert_eq!(b.on_idle(2), Some(0));
    assert!(b.dimmed);
    // our own write comes back and is ignored
    assert_eq!(b.on_changed(0, "other", 10), None);
    assert!(b.own.is_empty());
    assert_eq!(b.on_resume(20), Some(2));
    assert!(!b.dimmed);
    assert_eq!(b.on_changed(2, "other", 30), None);
    assert_eq!(b.level, 2);
}

#[test]
fn idle_with_light_off_does_nothing() {
    let mut b = Backlight::new(0);
    assert_eq!(b.on_idle(0), None);
    assert!(!b.dimmed);
    assert_eq!(b.on_resume(5), None);
}

#[test]
fn fn_key_wins() {
    let mut b = Backlight::new(2);
    assert_eq!(b.on_idle(2), Some(0));
    assert_eq!(b.on_changed(0, "other", 1), None);
    assert_eq!(b.on_changed(1, "internal", 2), None);
    assert_eq!(b.level, 1);
    assert!(!b.dimmed);
    assert_eq!(b.on_resume(3), None);
}

#[test]
fn desktop_restoring_zero_is_undone() {
    let mut b = Backlight::new(2);
    assert_eq!(b.on_idle(2), Some(0));
    assert_eq!(b.on_changed(0, "other", 100), None);
    // the desktop dims as well while we are dimmed
    assert_eq!(b.on_changed(0, "other", 200), None);
    assert!(b.kde_dimmed);
    assert_eq!(b.on_resume(1_000), Some(2));
    assert_eq!(b.reassert_until, Some(3_000));
    // the desktop "restores" the 0 it saved, before our echo
    assert_eq!(b.on_changed(0, "other", 1_500), Some(2));
    assert_eq!(b.reassert_until, None);
    assert_eq!(b.own, vec![2, 2]);
    // after the window a 0 is taken as the user's choice
    let mut c = Backlight::new(2);
    c.on_idle(2);
    c.on_changed(0, "other", 0);
    c.on_changed(0, "other", 0);
    c.on_resume(1_000);
    c.on_changed(2, "other", 1_100);
    assert_eq!(c.on_changed(0, "other", 3_000), None);
    assert_eq!(c.level, 0);
}

#[test]
fn stop_while_dimmed_restores() {
    let mut b = Backlight::new(1);
    assert_eq!(b.on_idle(1), Some(0));
    assert_eq!(b.on_stop(), Some(1));
    let mut c = Backlight::new(1);
    assert_eq!(c.on_stop(), None);
}

#[test]
fn failed_write_is_forgotten() {
    let mut b = Backlight::new(2);
    assert_eq!(b.on_idle(2), Some(0));
    b.set_failed();
    assert!(b.own.is_empty());
    // with nothing pending, a 0 from the desktop while dimmed marks it dimmed too
    assert_eq!(b.on_changed(0, "other", 5), None);
    assert!(b.kde_dimmed);
}
