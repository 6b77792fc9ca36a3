use legion83::probe::{gpu_clients, gpu_limit_field, power_plan, undervolt_field, GPU_RUNTIME_STATUS};
use legion83::screen::{current_refresh, refresh_outcome, refresh_rates, refresh_switch, Mode, Output, Screen};
use legion83::sysfs::Sysfs;

fn status(s: &str) -> Sysfs {
    let mut f = Sysfs::new();
    f.add(GPU_RUNTIME_STATUS.to_string(), s.to_string());
    f
}

#[test]
fn gpu_client_labels() {
    let out = "/usr/bin/python3, 512\n\n  \ngame.exe,1024\n";
    assert_eq!(
        gpu_clients(Some(out), &status("active")),
        vec!["python3 (512 MiB)".to_string(), "game.exe (1024 MiB)".to_string()]
    );
    assert_eq!(gpu_clients(Some("lonely"), &status("suspended")), vec!["lonely ( MiB)".to_string()]);
    assert_eq!(gpu_clients(Some(""), &status("active\n")), vec!["awake, no compute clients".to_string()]);
    assert_eq!(gpu_clients(Some(""), &status("suspended")), Vec::<String>::new());
    assert_eq!(gpu_clients(None, &status("active")), Vec::<String>::new());
}

#[test]
fn undervolt_field_found() {
    assert_eq!(undervolt_field("CPU (0): -99.61 mV\nGPU (1): -50 mV\n"), Some("-99.61".to_string()));
    assert_eq!(undervolt_field("GPU (1): -50 mV\nCPU (0): 0.00 mV"), Some("0.00".to_string()));
    assert_eq!(undervolt_field("nothing here"), None);
}

#[test]
fn power_plan_and_gpu_limit() {
    assert_eq!(power_plan("balanced\n"), Some("balanced".to_string()));
    assert_eq!(power_plan("  \n"), None);
    assert_eq!(gpu_limit_field("RTX 5050, 115.00\n"), "115.00");
    assert_eq!(gpu_limit_field("RTX 5050"), "0");
}

fn mode(id: &str, w: i64, h: i64, hz: i32) -> Mode {
    Mode { id: Some(id.to_string()), width: Some(w), height: Some(h), refresh_hz: Some(hz) }
}

fn screen() -> Screen {
    Screen {
        outputs: Some(vec![
            Output { name: Some("HDMI-1".into()), enabled: Some(false), current_mode_id: None, modes: None },
            Output {
                name: Some("eDP-1".into()),
                enabled: Some(true),
                current_mode_id: Some("2".into()),
                modes: Some(vec![
                    mode("1", 1920, 1080, 60),
                    mode("2", 1920, 1080, 144),
                    mode("3", 1920, 1080, 60),
                    mode("4", 1280, 720, 165),
                    mode("5", 1920, 1080, 120),
                ]),
            },
        ]),
    }
}

#[test]
fn rates_at_current_resolution_highest_first() {
    assert_eq!(refresh_rates(Some(&screen())), vec![144, 120, 60]);
    assert_eq!(refresh_rates(None), Vec::<i32>::new());
    assert_eq!(current_refresh(Some(&screen())), Some(144));
    assert_eq!(current_refresh(None), None);
}

#[test]
fn refresh_switch_argument_and_errors() {
    let s = screen();
    assert_eq!(refresh_switch(Some(&s), 60), Ok("output.eDP-1.mode.1".to_string()));
    assert_eq!(refresh_switch(Some(&s), 165), Err("the panel has no 165 Hz mode at this resolution".to_string()));
    assert_eq!(refresh_switch(None, 60), Err("kscreen-doctor is not available".to_string()));
    let off = Screen { outputs: Some(vec![]) };
    assert_eq!(refresh_switch(Some(&off), 60), Err("no enabled display found".to_string()));
    let nameless = Screen {
        outputs: Some(vec![Output { name: None, enabled: Some(true), current_mode_id: None, modes: None }]),
    };
    assert_eq!(refresh_switch(Some(&nameless), 60), Err("display has no name".to_string()));
    let modeless = Screen {
        outputs: Some(vec![Output { name: Some("eDP-1".into()), enabled: Some(true), current_mode_id: None, modes: None }]),
    };
    assert_eq!(refresh_switch(Some(&modeless), 60), Err("display reports no modes".to_string()));
    assert_eq!(refresh_outcome(false, "x\nlast line\n"), Err("last line".to_string()));
    assert_eq!(refresh_outcome(false, ""), Err("refresh rate change failed".to_string()));
    assert_eq!(refresh_outcome(true, "ignored"), Ok(()));
}
