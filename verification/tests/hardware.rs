use legion83::hw::{Hw, KBD_LED, KBD_LED_1, LEGION, RAPL};
use legion83::probe::{hwmon_pick, HwmonEntry};
use legion83::sysfs::{
    helper_outcome, read_i32, undervolt_outcome, verb_outcome, OnError, Step, Sysfs,
};

const DIR: &str = "/sys/class/hwmon/hwmon5";

fn hw() -> Hw {
    Hw { legion_hwmon: Some(DIR.to_string()), coretemp: Some("/sys/class/hwmon/hwmon3".to_string()) }
}

fn fs(files: &[(&str, &str)]) -> Sysfs {
    let mut s = Sysfs::new();
    for (p, c) in files {
        s.add(p.to_string(), c.to_string());
    }
    s
}

fn w(path: &str, value: i32, on_error: OnError) -> Step {
    Step::Write { path: path.to_string(), value, on_error }
}

fn rep(path: &str, value: i32) -> Step {
    w(path, value, OnError::Report(String::new()))
}

fn lg(node: &str) -> String {
    format!("{LEGION}/{node}")
}

#[test]
fn sysfs_reads_trimmed_first_record() {
    let s = fs(&[("/x", "  17\n"), ("/x", "18")]);
    assert_eq!(s.read("/x"), Some("17"));
    assert_eq!(s.read("/y"), None);
    assert_eq!(read_i32(s.read("/x")), Some(17));
    assert_eq!(read_i32(Some("abc")), None);
    assert_eq!(read_i32(None), None);
}

#[test]
fn helper_exit_codes() {
    assert_eq!(helper_outcome(Some(0), "", "/p"), Ok(()));
    // 4: landed but read back differently, which is no failure
    assert_eq!(helper_outcome(Some(4), "clamped", "/p"), Ok(()));
    assert_eq!(
        helper_outcome(Some(1), "sudo: a password is required\n", "/p"),
        Err("helper not authorised - run: sudo ./install.sh".to_string())
    );
    assert_eq!(helper_outcome(Some(2), "  \n", "/p"), Err("write to /p failed".to_string()));
    assert_eq!(helper_outcome(None, "\nbad path\nmore", "/p"), Err("bad path".to_string()));
}

#[test]
fn undervolt_and_verb_outcomes() {
    assert_eq!(undervolt_outcome(Some(0), "x"), Ok(()));
    assert_eq!(
        undervolt_outcome(Some(4), ""),
        Err("offset did not take - check UnderVolt Protection in BIOS".to_string())
    );
    assert_eq!(undervolt_outcome(Some(1), ""), Err("undervolt failed".to_string()));
    assert_eq!(undervolt_outcome(Some(1), "first\nsecond"), Err("first".to_string()));
    assert_eq!(verb_outcome(true, "ignored", "boot-save failed"), Ok(()));
    assert_eq!(verb_outcome(false, "", "boot-save failed"), Err("boot-save failed".to_string()));
    assert_eq!(verb_outcome(false, " no unit\n", "x"), Err("no unit".to_string()));
}

#[test]
fn fan_max_defaults_to_5400() {
    let h = hw();
    assert_eq!(h.fan_max(&fs(&[])), 5400);
    assert_eq!(h.fan_max(&fs(&[(&format!("{DIR}/fan1_max"), "0")])), 5400);
    assert_eq!(h.fan_max(&fs(&[(&format!("{DIR}/fan1_max"), "4300\n")])), 4300);
    let none = Hw { legion_hwmon: None, coretemp: None };
    assert_eq!(none.fan_max(&fs(&[(&format!("{DIR}/fan1_max"), "4300")])), 5400);
    assert!(!none.present());
    assert!(h.present());
    assert_eq!(h.lh("fan1_max"), Some(format!("{DIR}/fan1_max")));
}

#[test]
fn entering_custom_mode_only_when_needed() {
    let h = hw();
    assert_eq!(
        h.write_curve_mode(&fs(&[(&lg("powermode"), "3\n")])),
        vec![w(&lg("powermode"), 255, OnError::Report("could not enter custom powermode: ".to_string())), Step::Sleep { ms: 1500 }]
    );
    assert_eq!(h.write_curve_mode(&fs(&[(&lg("powermode"), "255")])), vec![]);
}

#[test]
fn curve_written_highest_first() {
    let h = hw();
    let before = fs(&[(&format!("{DIR}/fan1_max"), "5400")]);
    let after = fs(&[(&lg("fan_fullspeed"), "1"), (&format!("{DIR}/minifancurve"), "1")]);
    let plan = h.write_curve(&before, &after, &vec![(50, 1000), (60, 2000)]);
    let p2 = OnError::Report("point 2: ".to_string());
    let p1 = OnError::Report("point 1: ".to_string());
    assert_eq!(
        plan,
        vec![
            w(&lg("fan_fullspeed"), 0, OnError::Ignore),
            w(&format!("{DIR}/minifancurve"), 0, OnError::Ignore),
            w(&format!("{DIR}/pwm1_auto_point2_temp"), 60, OnError::Report("point 2: ".to_string())),
            w(&format!("{DIR}/pwm1_auto_point2_temp_hyst"), 55, OnError::Report("point 2: ".to_string())),
            w(&format!("{DIR}/pwm1_auto_point2_pwm"), 94, p2),
            w(&format!("{DIR}/pwm1_auto_point1_temp"), 50, OnError::Report("point 1: ".to_string())),
            w(&format!("{DIR}/pwm1_auto_point1_temp_hyst"), 42, OnError::Report("point 1: ".to_string())),
            w(&format!("{DIR}/pwm1_auto_point1_pwm"), 47, p1),
        ]
    );
    // nothing to clear, and hysteresis never goes below zero
    let clean = fs(&[(&lg("fan_fullspeed"), "0"), (&format!("{DIR}/minifancurve"), "0")]);
    let plan = h.write_curve(&before, &clean, &vec![(3, 0)]);
    assert_eq!(
        plan,
        vec![
            w(&format!("{DIR}/pwm1_auto_point1_temp"), 3, OnError::Report("point 1: ".to_string())),
            w(&format!("{DIR}/pwm1_auto_point1_temp_hyst"), 0, OnError::Report("point 1: ".to_string())),
            w(&format!("{DIR}/pwm1_auto_point1_pwm"), 0, OnError::Report("point 1: ".to_string())),
        ]
    );
    // fan_fullspeed unreadable counts as not cleared
    let plan = Hw { legion_hwmon: None, coretemp: None }.write_curve(&before, &fs(&[]), &vec![(50, 1000)]);
    assert_eq!(plan, vec![w(&lg("fan_fullspeed"), 0, OnError::Ignore)]);
}

#[test]
fn read_curve_converts_duty() {
    let h = hw();
    let mut files: Vec<(String, String)> = vec![(format!("{DIR}/fan1_max"), "5400".to_string())];
    for i in 1..=10 {
        files.push((format!("{DIR}/pwm1_auto_point{i}_temp"), format!("{}\n", 40 + i)));
        files.push((format!("{DIR}/pwm1_auto_point{i}_pwm"), "128".to_string()));
    }
    let mut s = Sysfs::new();
    for (p, c) in files {
        s.add(p, c);
    }
    assert!(h.curve_readable(&s));
    let c = h.read_curve(&s);
    assert_eq!(c.len(), 10);
    assert_eq!(c[0], (41, 2700));
    assert_eq!(c[9], (50, 2700));
    let empty = h.read_curve(&fs(&[]));
    assert_eq!(empty, vec![(0, 0); 10]);
    let wild = fs(&[(&format!("{DIR}/fan1_max"), "2000000000"), (&format!("{DIR}/pwm1_auto_point3_pwm"), "2000000000")]);
    assert!(!h.curve_readable(&wild));
}

#[test]
fn power_limits_in_micro_units() {
    assert_eq!(
        hw().set_power(45, 90, 8),
        vec![
            rep(&format!("{RAPL}/constraint_0_power_limit_uw"), 45_000_000),
            rep(&format!("{RAPL}/constraint_1_power_limit_uw"), 90_000_000),
            rep(&format!("{RAPL}/constraint_0_time_window_us"), 8_000_000),
        ]
    );
    assert_eq!(
        hw().set_gpu(80, 15),
        vec![rep(&lg("gpu_ctgp_powerlimit"), 80), rep(&lg("gpu_ppab_powerlimit"), 15)]
    );
}

#[test]
fn keyboard_level_clamped_on_both_nodes() {
    assert_eq!(hw().set_kbd_backlight(5), vec![rep(KBD_LED, 2), rep(KBD_LED_1, 2)]);
    assert_eq!(hw().set_kbd_backlight(-3), vec![rep(KBD_LED, 0), rep(KBD_LED_1, 0)]);
    assert_eq!(hw().set_kbd_backlight(1), vec![rep(KBD_LED, 1), rep(KBD_LED_1, 1)]);
}

#[test]
fn charge_modes_exclusive() {
    assert_eq!(
        hw().set_charge_mode(true, true),
        Err("conservation mode and rapid charge cannot both be on".to_string())
    );
    assert_eq!(
        hw().set_charge_mode(true, false),
        Ok(vec![rep(&lg("battery_conservation"), 1), rep(&lg("rapidcharge"), 0)])
    );
    assert_eq!(
        hw().set_charge_mode(false, false),
        Ok(vec![rep(&lg("battery_conservation"), 0), rep(&lg("rapidcharge"), 0)])
    );
}

#[test]
fn single_writes() {
    let h = hw();
    assert_eq!(h.set_max_perf(5), rep("/sys/devices/system/cpu/intel_pstate/max_perf_pct", 10));
    assert_eq!(h.set_max_perf(150), rep("/sys/devices/system/cpu/intel_pstate/max_perf_pct", 100));
    assert_eq!(h.set_max_perf(60), rep("/sys/devices/system/cpu/intel_pstate/max_perf_pct", 60));
    assert_eq!(h.set_flag("fn_lock", true), rep(&lg("fn_lock"), 1));
    assert_eq!(h.set_ec("cpu_l1_tau", 28), rep(&lg("cpu_l1_tau"), 28));
    assert_eq!(h.set_fan_fullspeed(false), rep(&lg("fan_fullspeed"), 0));
    assert_eq!(h.set_powermode(224), rep(&lg("powermode"), 224));
}

#[test]
fn restore_stock_bounces_mode() {
    let h = hw();
    assert_eq!(
        h.restore_stock(&fs(&[(&lg("powermode"), "3")])),
        vec![w(&lg("powermode"), 2, OnError::Stop), Step::Sleep { ms: 1800 }, w(&lg("powermode"), 3, OnError::Stop)]
    );
    assert_eq!(
        h.restore_stock(&fs(&[])),
        vec![w(&lg("powermode"), 3, OnError::Stop), Step::Sleep { ms: 1800 }, w(&lg("powermode"), 255, OnError::Stop)]
    );
}

#[test]
fn telemetry_from_snapshot() {
    let h = hw();
    let s = fs(&[
        ("/sys/class/hwmon/hwmon3/temp1_input", "45999\n"),
        (&format!("{DIR}/temp2_input"), "-1500"),
        (&format!("{DIR}/fan1_input"), "2600"),
        (&format!("{DIR}/fan1_max"), "5400"),
        (&format!("{DIR}/minifancurve"), "1"),
        (&lg("fan_fullspeed"), "0"),
        (&lg("powermode"), "255"),
        (&format!("{RAPL}/constraint_0_power_limit_uw"), "45000000"),
        (&format!("{RAPL}/constraint_1_power_limit_uw"), "90999999"),
        (&format!("{RAPL}/constraint_0_time_window_us"), "7999744"),
        ("/sys/devices/system/cpu/cpu0/thermal_throttle/package_throttle_count", "91"),
        ("/sys/class/power_supply/ACAD/online", "0\n"),
    ]);
    let freqs = vec!["800000\n".to_string(), "bad".to_string(), "1200000".to_string()];
    let t = h.telemetry(&s, &freqs, -100);
    assert_eq!(t.cpu_temp, 45);
    assert_eq!(t.gpu_temp, -1);
    assert_eq!(t.fan_rpm, 2600);
    assert_eq!(t.fan_max, 5400);
    assert!(t.minifancurve);
    assert!(!t.fan_fullspeed);
    assert_eq!(t.powermode, 255);
    assert_eq!((t.pl1, t.pl2, t.tau), (45, 90, 7));
    assert_eq!(t.prochot, 91);
    assert_eq!(t.max_perf_pct, 100);
    assert!(t.on_battery);
    assert_eq!(t.undervolt_mv, -100);
    assert_eq!(t.cpu_mhz, 1000);
    let empty = Hw { legion_hwmon: None, coretemp: None }.telemetry(&fs(&[]), &vec![], 0);
    assert_eq!(empty.powermode, -1);
    assert_eq!(empty.cpu_mhz, 0);
    assert!(!empty.on_battery);
}

#[test]
fn extras_from_snapshot() {
    let h = hw();
    let s = fs(&[
        ("/sys/class/power_supply/BAT1/capacity", "80"),
        ("/sys/class/power_supply/BAT1/cycle_count", "12"),
        ("/sys/class/power_supply/BAT1/energy_full", "45000000"),
        ("/sys/class/power_supply/BAT1/energy_full_design", "60000000"),
        ("/sys/class/power_supply/BAT1/voltage_now", "16500000"),
        ("/sys/class/power_supply/BAT1/status", "Discharging\n"),
        (&lg("battery_conservation"), "1"),
        (&lg("fn_lock"), "0"),
        (&lg("cpu_temperature_limit"), "90"),
        (&lg("gpu_oc"), "15"),
        (KBD_LED, "2"),
    ]);
    let e = h.extras(&s, Some(144), Some("NVIDIA GeForce RTX 5050 Laptop GPU, 115.00\n"), 115);
    assert_eq!(e.bat_capacity, 80);
    assert_eq!(e.bat_cycles, 12);
    assert_eq!(e.bat_health, 75);
    assert_eq!(e.bat_voltage_uv, 16_500_000);
    assert_eq!(e.bat_power_uw, 0);
    assert_eq!(e.bat_status, "Discharging");
    assert_eq!(e.bat_model, "");
    assert!(e.conservation);
    assert!(!e.rapid_charge);
    assert!(!e.fn_lock);
    assert_eq!(e.kbd_backlight, 2);
    assert_eq!(e.kbd_max, 2);
    assert_eq!(e.cpu_temp_limit, 90);
    assert_eq!(e.gpu_boost, 15);
    assert_eq!(e.refresh_hz, 144);
    assert_eq!(e.gpu_name, "NVIDIA GeForce RTX 5050 Laptop GPU");
    assert_eq!(e.gpu_pl_max, 115);
    let none = h.extras(&fs(&[]), None, None, 99);
    assert_eq!(none.bat_health, 0);
    assert_eq!(none.refresh_hz, 0);
    assert_eq!(none.gpu_name, "");
    assert_eq!(none.gpu_pl_max, 0);
}

#[test]
fn gpu_limits_read() {
    let h = hw();
    assert_eq!(h.gpu_limits(&fs(&[(&lg("gpu_ctgp_powerlimit"), "80")])), (80, 0));
}

fn entry(key: &str, name: Option<&str>) -> HwmonEntry {
    HwmonEntry {
        key: key.as_bytes().to_vec(),
        path: format!("/sys/class/hwmon/{key}"),
        name: name.map(|n| n.to_string()),
    }
}

#[test]
fn hwmon_resolved_by_name_in_file_name_order() {
    let es = vec![entry("hwmon5", Some("legion_hwmon\n")), entry("hwmon3", Some("coretemp")), entry("hwmon10", Some("acpitz"))];
    assert_eq!(hwmon_pick(&es, "legion_hwmon"), Some("/sys/class/hwmon/hwmon5".to_string()));
    assert_eq!(hwmon_pick(&es, "coretemp"), Some("/sys/class/hwmon/hwmon3".to_string()));
    assert_eq!(hwmon_pick(&es, "nvme"), None);
    let h = Hw::new(&es);
    assert_eq!(h.legion_hwmon, Some("/sys/class/hwmon/hwmon5".to_string()));
    assert_eq!(h.coretemp, Some("/sys/class/hwmon/hwmon3".to_string()));
    // an unreadable name earlier in order ends the search
    let es = vec![entry("hwmon5", Some("legion_hwmon")), entry("hwmon10", None)];
    assert_eq!(hwmon_pick(&es, "legion_hwmon"), None);
    // two directories of one driver: the first in order wins
    let es = vec![entry("hwmon7", Some("coretemp")), entry("hwmon2", Some("coretemp"))];
    assert_eq!(hwmon_pick(&es, "coretemp"), Some("/sys/class/hwmon/hwmon2".to_string()));
}
