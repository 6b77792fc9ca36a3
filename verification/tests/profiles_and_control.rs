use legion83::control::{
    apply_actions, apply_profile_extras, charge_status, curve_order_error, edit_point, kbd_status, labels,
    mode_bound_actions, plan_actions, report, source_actions, undervolt_status, Action, Poll, Tick,
};
use legion83::profiles::{builtins, load, mode_name, to_saved, Config, Edit, Profile, MODES};

fn user(name: &str) -> Profile {
    Profile {
        name: name.to_string(),
        curve: vec![(40, 1000), (50, 2000)],
        pl1: 35,
        pl2: 60,
        tau: 8,
        powermode: 0,
        undervolt_mv: -50,
        max_perf_pct: 80,
        fan_fullspeed: false,
        gpu_ctgp: 0,
        gpu_ppab: 0,
        power_plan: None,
        cpu_temp_limit: 0,
        gpu_temp_limit: 0,
        gpu_boost: 0,
        gpu_target_offset: 0,
        kbd_backlight: -1,
        refresh_hz: 0,
        builtin: false,
    }
}

fn empty_config() -> Config {
    Config { profiles: vec![], bindings: vec![], apply_on_start: None, persist: false, on_battery_profile: None, on_ac_profile: None }
}

fn names(c: &Config) -> Vec<String> {
    c.profiles.iter().map(|p| p.name.clone()).collect()
}

#[test]
fn builtin_profiles() {
    let b = builtins();
    let n: Vec<&str> = b.iter().map(|p| p.name.as_str()).collect();
    assert_eq!(n, vec!["Silent", "Balanced", "Gaming", "Max cooling"]);
    assert!(b.iter().all(|p| p.builtin && p.curve.len() == 10));
    assert_eq!((b[0].pl1, b[0].pl2, b[0].tau, b[0].powermode), (30, 55, 8, 1));
    assert_eq!((b[2].pl1, b[2].pl2, b[2].powermode), (45, 90, 255));
    assert_eq!(b[3].curve[0], (40, 2000));
    assert_eq!(b[1].curve[9], (92, 4300));
    // every built-in curve rises
    for p in &b {
        assert_eq!(curve_order_error(&p.curve), None);
    }
}

#[test]
fn mode_names() {
    assert_eq!(mode_name(1), "Quiet");
    assert_eq!(mode_name(224), "Extreme");
    assert_eq!(mode_name(255), "Custom");
    assert_eq!(mode_name(7), "Unknown");
    assert_eq!(MODES, [1, 2, 3, 224, 255]);
}

#[test]
fn load_refreshes_builtins_keeps_users() {
    assert_eq!(names(&load(None)), vec!["Silent", "Balanced", "Gaming", "Max cooling"]);
    let mut stale = builtins().remove(0);
    stale.curve = vec![(1, 1)];
    let mut cfg = empty_config();
    cfg.profiles = vec![stale, user("Mine"), user("Night")];
    cfg.persist = true;
    let l = load(Some(cfg));
    assert_eq!(names(&l), vec!["Silent", "Balanced", "Gaming", "Max cooling", "Mine", "Night"]);
    assert_eq!(l.profiles[0].curve.len(), 10);
    assert!(l.persist);
    let saved = to_saved(&l);
    assert_eq!(names(&saved), vec!["Mine", "Night"]);
    assert_eq!(names(&load(Some(saved))), names(&l));
}

#[test]
fn binding_profiles_to_modes() {
    let mut c = load(None);
    c.profiles.push(user("Mine"));
    assert_eq!(c.bind_profile(4, 5), Some("Mine".to_string()));
    assert_eq!(c.bindings, vec![(255, "Mine".to_string())]);
    // the Gaming profile takes mode 255 over
    assert_eq!(c.bind_profile(2, 5), Some("Gaming".to_string()));
    assert_eq!(c.bindings, vec![(255, "Gaming".to_string())]);
    // a profile moves to another mode
    assert_eq!(c.bind_profile(2, 3), Some("Gaming".to_string()));
    assert_eq!(c.bindings, vec![(3, "Gaming".to_string())]);
    assert_eq!(c.bind_profile(4, 1), Some("Mine".to_string()));
    assert_eq!(c.bindings, vec![(3, "Gaming".to_string()), (1, "Mine".to_string())]);
    // 0 clears, out-of-range mode clears only
    assert_eq!(c.bind_profile(2, 0), Some("Gaming".to_string()));
    assert_eq!(c.bind_profile(4, 9), Some("Mine".to_string()));
    assert!(c.bindings.is_empty());
    assert_eq!(c.bind_profile(-1, 1), None);
    assert_eq!(c.bind_profile(9, 1), None);
}

#[test]
fn deleting_and_updating() {
    let mut c = load(None);
    c.profiles.push(user("Mine"));
    c.bind_profile(4, 2);
    assert_eq!(c.delete_profile(0), Edit::Refused("built-in profiles cannot be deleted".to_string()));
    assert_eq!(c.delete_profile(9), Edit::Missing);
    let mut changed = user("ignored name");
    changed.pl1 = 20;
    changed.builtin = true;
    changed.power_plan = Some("balanced".into());
    assert_eq!(
        c.update_profile(1, user("x")),
        Edit::Refused("built-in profiles cannot be edited - use 'save as' to make your own".to_string())
    );
    assert_eq!(c.update_profile(4, changed), Edit::Done("Mine".to_string()));
    assert_eq!(c.profiles[4].name, "Mine");
    assert_eq!(c.profiles[4].pl1, 20);
    assert!(!c.profiles[4].builtin);
    assert_eq!(c.profiles[4].power_plan, None);
    assert_eq!(c.delete_profile(4), Edit::Done("Mine".to_string()));
    assert_eq!(c.profiles.len(), 4);
    assert!(c.bindings.is_empty());
}

#[test]
fn saving_replaces_user_profile_of_same_name() {
    let mut c = load(None);
    c.save_profile(user("Mine"));
    let mut again = user("Mine");
    again.pl1 = 99;
    c.save_profile(again);
    assert_eq!(c.profiles.len(), 5);
    assert_eq!(c.profiles[4].pl1, 99);
    // a user profile named like a built-in is added, the built-in stays
    c.save_profile(user("Gaming"));
    assert_eq!(c.profiles.len(), 6);
    assert!(c.profiles[2].builtin);
}

#[test]
fn power_source_bindings() {
    let mut c = load(None);
    c.profiles.push(user("Mine"));
    assert_eq!(c.bind_power_source(4, 1), Some("Mine".to_string()));
    assert_eq!(c.on_battery_profile, Some("Mine".to_string()));
    assert_eq!(c.bind_power_source(4, 2), Some("Mine".to_string()));
    assert_eq!(c.on_battery_profile, None);
    assert_eq!(c.on_ac_profile, Some("Mine".to_string()));
    assert_eq!(c.bind_power_source(4, 4), Some("Mine".to_string()));
    assert_eq!(c.on_ac_profile, None);
    assert_eq!(c.profiles[4].power_plan, Some("balanced".to_string()));
    assert_eq!(c.bind_power_source(0, 5), Some("Silent".to_string()));
    assert_eq!(c.profiles[0].power_plan, Some("performance".to_string()));
    assert_eq!(c.bind_power_source(4, 0), Some("Mine".to_string()));
    assert_eq!(c.profiles[4].power_plan, None);
    assert_eq!(c.bind_power_source(7, 1), None);
    let l = labels(&c);
    assert_eq!(l[0], "Silent  [performance]");
    c.bind_profile(4, 3);
    c.bind_power_source(4, 1);
    let l = labels(&c);
    assert_eq!(l[4], "Mine  [Performance]  [batt]");
    assert_eq!(l[1], "Balanced");
}

#[test]
fn curve_editing_and_checks() {
    let mut d = vec![(40, 1000), (50, 2000)];
    assert!(edit_point(&mut d, 1, 150, 9000, 5400));
    assert_eq!(d[1], (120, 5400));
    assert!(edit_point(&mut d, 0, -5, -5, 5400));
    assert_eq!(d[0], (0, 0));
    assert!(!edit_point(&mut d, 2, 1, 1, 5400));
    assert!(!edit_point(&mut d, -1, 1, 1, 5400));
    assert_eq!(
        curve_order_error(&vec![(50, 1000), (45, 2000)]),
        Some("point 2 temperature (45C) is below point 1 (50C) — must increase".to_string())
    );
    assert_eq!(curve_order_error(&vec![(50, 1000), (50, 2000), (60, 1)]), None);
    assert_eq!(curve_order_error(&vec![]), None);
}

#[test]
fn status_lines() {
    assert_eq!(report(&vec![], "fan curve applied"), (false, "fan curve applied".to_string()));
    assert_eq!(report(&vec!["a".into(), "b".into(), "c".into()], "x"), (true, "a; b; c".to_string()));
    assert_eq!(undervolt_status(0), "voltage offset cleared");
    assert_eq!(undervolt_status(-100), "-100 mV applied - not persistent until 'Re-apply at boot'");
    assert_eq!(undervolt_status(25), "+25 mV OVERVOLT applied - raises heat and wear");
    assert_eq!(charge_status(true, true), "conservation mode on — charging stops near 60%");
    assert_eq!(charge_status(false, true), "rapid charge on");
    assert_eq!(charge_status(false, false), "normal charging");
    assert_eq!(kbd_status(0), "keyboard backlight off");
    assert_eq!(kbd_status(2), "keyboard backlight level 2");
}

#[test]
fn applying_a_profile_in_order() {
    let gaming = builtins().remove(2);
    let curve = gaming.curve.clone();
    assert_eq!(
        apply_actions(&gaming),
        vec![
            Action::SetPowermode(255),
            Action::Sleep(600),
            Action::SetPower(45, 90, 8),
            Action::SetUndervolt(0),
            Action::SetMaxPerf(100),
            Action::WriteCurve(curve.clone()),
        ]
    );
    let mut p = user("Mine");
    p.gpu_ctgp = 80;
    p.cpu_temp_limit = 90;
    p.gpu_target_offset = 5;
    p.kbd_backlight = 0;
    p.refresh_hz = 60;
    p.fan_fullspeed = true;
    let c = p.curve.clone();
    assert_eq!(
        apply_profile_extras(&p),
        vec![
            Action::SetEc("cpu_temperature_limit", 90),
            Action::SetEc("gpu_power_target_offset", 5),
            Action::SetKbdBacklight(0),
            Action::SetRefresh(60),
        ]
    );
    assert_eq!(
        apply_actions(&p),
        vec![
            Action::SetPower(35, 60, 8),
            Action::SetUndervolt(-50),
            Action::SetMaxPerf(80),
            Action::SetGpu(80, 0),
            Action::SetEc("cpu_temperature_limit", 90),
            Action::SetEc("gpu_power_target_offset", 5),
            Action::SetKbdBacklight(0),
            Action::SetRefresh(60),
            Action::WriteCurve(c.clone()),
            Action::FanFullspeed,
        ]
    );
    assert_eq!(source_actions(&p).last(), Some(&Action::WriteCurve(c.clone())));
    assert_eq!(plan_actions(&p).last(), Some(&Action::FanFullspeed));
    assert_eq!(mode_bound_actions(&p), vec![Action::SetPower(35, 60, 8), Action::WriteCurve(c)]);
}

#[test]
fn poll_transitions() {
    let mut c = load(None);
    c.profiles.push(user("Mine"));
    c.bind_profile(2, 5);
    c.bind_power_source(4, 1);
    c.bind_power_source(1, 4);
    let mut p = Poll::new();
    let t = p.tick(&c, 255, true, Some("balanced".into()));
    assert_eq!(
        t,
        Tick { mode_profile: Some(2), source_profile: Some(4), plan_profile: Some(1), clear_dirty: true, refresh_extras: false }
    );
    let t = p.tick(&c, 255, true, Some("balanced".into()));
    assert_eq!(
        t,
        Tick { mode_profile: None, source_profile: None, plan_profile: None, clear_dirty: false, refresh_extras: false }
    );
    let t = p.tick(&c, 3, false, None);
    assert_eq!(
        t,
        Tick { mode_profile: None, source_profile: None, plan_profile: None, clear_dirty: true, refresh_extras: false }
    );
    let t = p.tick(&c, 3, false, Some("performance".into()));
    assert_eq!(t.plan_profile, None);
    assert!(!t.clear_dirty);
    for _ in 0..3 {
        p.tick(&c, 3, false, None);
    }
    assert!(p.tick(&c, 3, false, None).refresh_extras);
}
