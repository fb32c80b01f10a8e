use raven_controls::backlight::upower::UPower;
use raven_controls::daemon::{find_reading, plan_drive, plan_release, plan_set};
use raven_controls::guard::{hand_back_step, Guard, Restored};
use raven_controls::model::{Domain, Role, Setting};
use raven_controls::provider::{Applied, Hardware};
use raven_controls::sysfs::{Node, NodeKind, Root};

fn put(root: &mut Root, path: &str, text: &str, writable: bool) {
    root.add(Node {
        path: path.to_string(),
        kind: NodeKind::File { data: Some(text.as_bytes().to_vec()) },
        writable,
    });
}

fn folder(root: &mut Root, path: &str) {
    root.add(Node { path: path.to_string(), kind: NodeKind::Dir, writable: false });
}

fn thinkpad(mut root: Root) -> Root {
    folder(&mut root, "/sys/class/leds/tpacpi::kbd_backlight");
    put(&mut root, "/sys/class/leds/tpacpi::kbd_backlight/brightness", "1\n", true);
    put(&mut root, "/sys/class/leds/tpacpi::kbd_backlight/max_brightness", "2\n", false);
    folder(&mut root, "/sys/class/leds/input3::capslock");
    put(&mut root, "/sys/class/leds/input3::capslock/brightness", "0\n", true);
    put(&mut root, "/sys/class/leds/input3::capslock/max_brightness", "1\n", false);
    put(&mut root, "/proc/acpi/ibm/fan", "status:\t\tenabled\nspeed:\t\t3100\nlevel:\t\tauto\n", true);
    put(&mut root, "/sys/firmware/acpi/platform_profile", "balanced\n", true);
    put(&mut root, "/sys/firmware/acpi/platform_profile_choices", "low-power balanced performance\n", false);
    put(&mut root, "/sys/class/dmi/id/sys_vendor", "LENOVO\n", false);
    put(&mut root, "/sys/class/dmi/id/product_name", "20S0CTO1WW\n", false);
    put(&mut root, "/proc/sys/kernel/osrelease", "6.8.0-raven\n", false);
    root
}

fn desktop(mut root: Root) -> Root {
    folder(&mut root, "/sys/class/hwmon/hwmon0");
    put(&mut root, "/sys/class/hwmon/hwmon0/name", "nct6798\n", false);
    put(&mut root, "/sys/class/hwmon/hwmon0/pwm1", "128\n", true);
    put(&mut root, "/sys/class/hwmon/hwmon0/pwm1_enable", "5\n", true);
    put(&mut root, "/sys/class/hwmon/hwmon0/fan1_input", "900\n", false);
    put(&mut root, "/sys/class/hwmon/hwmon0/fan1_label", "CPU fan\n", false);
    put(&mut root, "/sys/class/hwmon/hwmon0/temp1_input", "41000\n", false);
    put(&mut root, "/sys/class/hwmon/hwmon0/temp1_crit", "95000\n", false);
    root
}

#[test]
fn a_thinkpad_offers_its_light_its_profile_and_its_fan_levels() {
    let hw = Hardware::discover(thinkpad(Root::at("/captured/thinkpad")), UPower::new(false));
    let lights = hw.knobs_for(Role::KeyboardBacklight);
    assert_eq!(lights.len(), 1);
    assert_eq!(lights[0].id, "leds/tpacpi::kbd_backlight");
    assert_eq!(lights[0].label, "Keyboard backlight");
    assert!(matches!(lights[0].domain, Domain::Percent { raw_max: 2 }));

    let fan = hw.knob("vendor/thinkpad/fan").expect("no ThinkPad fan control");
    match &fan.value {
        Setting::Mode { name } => assert_eq!(name, "Automatic"),
        other => panic!("{other:?}"),
    }
    match &fan.domain {
        Domain::Modes { options } => assert_eq!(options.len(), 10),
        other => panic!("{other:?}"),
    }

    let profile = hw.knob("platform-profile/acpi").expect("no platform profile");
    match &profile.domain {
        Domain::Modes { options } => assert_eq!(options, &vec!["Low power", "Balanced", "Performance"]),
        other => panic!("{other:?}"),
    }
    match &profile.value {
        Setting::Mode { name } => assert_eq!(name, "Balanced"),
        other => panic!("{other:?}"),
    }

    let speed = hw.readings().into_iter().find(|r| r.id == "vendor/thinkpad/fan").unwrap();
    assert_eq!(speed.value, 3100);
}

#[test]
fn nothing_in_a_captured_tree_is_writable_or_written() {
    let mut hw = Hardware::discover(thinkpad(Root::at("/captured/thinkpad")), UPower::new(false));
    for knob in hw.knobs() {
        assert!(!knob.writable, "{} claims to be writable", knob.id);
    }
    let err = hw
        .set("platform-profile/acpi", &Setting::Mode { name: "Performance".into() })
        .unwrap_err();
    assert!(err.contains("not writable"), "{err}");
    assert!(hw.root().journal().is_empty());
}

#[test]
fn a_value_that_does_not_fit_the_hardware_is_refused_before_any_write() {
    let mut hw = Hardware::discover(thinkpad(Root::system()), UPower::new(false));
    let err = hw.set("vendor/thinkpad/fan", &Setting::Percent { raw: 50 }).unwrap_err();
    assert!(err.contains("does not fit"), "{err}");
    let err = hw
        .set("platform-profile/acpi", &Setting::Mode { name: "Turbo".into() })
        .unwrap_err();
    assert!(err.contains("Low power, Balanced, Performance"), "{err}");
    assert!(hw.root().journal().is_empty());
}

#[test]
fn a_set_on_something_that_does_not_exist_says_so() {
    let mut hw = Hardware::discover(thinkpad(Root::system()), UPower::new(false));
    let err = hw.set("hwmon/nothing/pwm1", &Setting::Percent { raw: 50 }).unwrap_err();
    assert_eq!(err, "no control called \"hwmon/nothing/pwm1\" on this machine");
}

#[test]
fn a_profile_is_written_in_the_kernels_spelling_and_reads_back() {
    let mut hw = Hardware::discover(thinkpad(Root::system()), UPower::new(false));
    let done = hw.set("platform-profile/acpi", &Setting::Mode { name: "Low power".into() });
    assert_eq!(done, Ok(Applied::Written));
    assert_eq!(
        hw.root().journal(),
        &vec![("/sys/firmware/acpi/platform_profile".to_string(), "low-power".to_string())]
    );
    assert_eq!(hw.root().read("/sys/firmware/acpi/platform_profile").as_deref(), Some("low-power"));
}

#[test]
fn a_thinkpad_fan_level_goes_to_procfs_as_a_command() {
    let mut hw = Hardware::discover(thinkpad(Root::system()), UPower::new(false));
    let done = hw.set("vendor/thinkpad/fan", &Setting::Mode { name: "Level 3".into() });
    assert_eq!(done, Ok(Applied::Written));
    assert_eq!(
        hw.root().journal(),
        &vec![("/proc/acpi/ibm/fan".to_string(), "level 3".to_string())]
    );
}

#[test]
fn a_keyboard_light_value_above_its_range_is_refused() {
    let mut hw = Hardware::discover(thinkpad(Root::system()), UPower::new(false));
    let err = hw.set("leds/tpacpi::kbd_backlight", &Setting::Percent { raw: 3 }).unwrap_err();
    assert_eq!(err, "3 is above the hardware maximum of 2");
    assert_eq!(hw.set("leds/tpacpi::kbd_backlight", &Setting::Percent { raw: 2 }), Ok(Applied::Written));
    assert_eq!(hw.root().read_u32("/sys/class/leds/tpacpi::kbd_backlight/brightness"), Some(2));
}

#[test]
fn a_board_in_its_own_automatic_mode_keeps_that_mode_on_the_menu() {
    let hw = Hardware::discover(desktop(Root::at("/captured/desktop")), UPower::new(false));
    let mode = hw.knob("hwmon/nct6798/pwm1_enable").unwrap();
    match &mode.domain {
        Domain::Modes { options } => {
            assert_eq!(options[0], "Automatic (driver mode 5)");
            assert!(options.contains(&"Manual".to_string()));
        }
        other => panic!("{other:?}"),
    }
    let duty = hw.knob("hwmon/nct6798/pwm1").unwrap();
    assert_eq!(duty.role, Role::FanDuty);
    assert!(matches!(duty.value, Setting::Percent { raw: 128 }));
    let temp = hw.readings().into_iter().find(|r| r.id == "hwmon/nct6798/temp1").unwrap();
    assert_eq!(temp.value, 41000);
    assert_eq!(temp.critical, Some(95000));
}

#[test]
fn each_id_is_offered_once_and_upower_defers_to_a_writable_light() {
    let mut root = thinkpad(Root::system());
    put(&mut root, "/sys/class/leds/tpacpi::kbd_backlight/brightness", "1\n", true);
    let mut hw = Hardware::discover(root, UPower::new(true));
    assert!(!hw.upower().asks_bus(hw.root()));
    hw.observe_bus(Some((2, 1)));
    let ids: Vec<String> = hw.knobs().into_iter().map(|k| k.id).collect();
    let mut unique = ids.clone();
    unique.sort();
    unique.dedup();
    assert_eq!(ids.len(), unique.len(), "{ids:?}");
    assert!(!ids.contains(&"upower/kbd_backlight".to_string()));
}

#[test]
fn upower_steps_in_for_a_root_owned_light() {
    let mut root = thinkpad(Root::system());
    put(&mut root, "/sys/class/leds/tpacpi::kbd_backlight/brightness", "1\n", false);
    let mut hw = Hardware::discover(root, UPower::new(true));
    assert!(hw.upower().asks_bus(hw.root()));
    hw.observe_bus(Some((3, 7)));
    let k = hw.knob("upower/kbd_backlight").unwrap();
    assert!(matches!(k.domain, Domain::Percent { raw_max: 3 }));
    assert!(matches!(k.value, Setting::Percent { raw: 3 }));
    // The LED class has the same light and comes first, so its row is the one
    // that stays when both are writable; here only UPower's is.
    assert_eq!(hw.set("upower/kbd_backlight", &Setting::Percent { raw: 1 }), Ok(Applied::ToUPower));
    assert_eq!(UPower::raw_for(&Setting::Percent { raw: 9 }, 3), Ok(3));
    assert_eq!(UPower::raw_for(&Setting::Switch { on: true }, 1), Ok(1));
    assert_eq!(
        UPower::raw_for(&Setting::Step { index: 1 }, 3).unwrap_err(),
        "UPower cannot take Step { index: 1 }"
    );
    assert_eq!(UPower::new(false).route("upower/kbd_backlight").unwrap_err(), "UPower is not running");
    assert_eq!(UPower::new(true).route("leds/x").unwrap_err(), "leds/x is not a UPower control");
}

#[test]
fn a_captured_tree_never_asks_the_bus() {
    let root = thinkpad(Root::at("/captured"));
    let u = UPower::new(true);
    assert!(!u.asks_bus(&root));
    assert!(u.knobs(&root, Some((3, 1))).is_empty());
}

#[test]
fn a_fixture_guard_takes_nothing_and_releases_cleanly() {
    let mut g = Guard::new(Root::at("/nonexistent"));
    assert!(g.take("/sys/class/hwmon/hwmon0/pwm1").is_ok());
    assert!(!g.holds("/sys/class/hwmon/hwmon0/pwm1"));
    g.release_all();
}

#[test]
fn a_guard_puts_back_the_mode_it_found() {
    let mut g = Guard::new(desktop(Root::system()));
    g.take("/sys/class/hwmon/hwmon0/pwm1").unwrap();
    assert!(g.holds("/sys/class/hwmon/hwmon0/pwm1"));
    assert_eq!(g.held(), vec!["/sys/class/hwmon/hwmon0/pwm1_enable".to_string()]);
    assert_eq!(g.root().read("/sys/class/hwmon/hwmon0/pwm1_enable").as_deref(), Some("1"));
    assert_eq!(g.release("/sys/class/hwmon/hwmon0/pwm1"), Some(Restored::Original));
    assert_eq!(g.root().read("/sys/class/hwmon/hwmon0/pwm1_enable").as_deref(), Some("5"));
    assert!(!g.holds("/sys/class/hwmon/hwmon0/pwm1"));
    assert_eq!(g.release("/sys/class/hwmon/hwmon0/pwm1"), None);
}

#[test]
fn a_channel_found_in_manual_is_handed_back_to_automatic() {
    let mut root = desktop(Root::system());
    put(&mut root, "/sys/class/hwmon/hwmon0/pwm1_enable", "1\n", true);
    let mut g = Guard::new(root);
    g.take("/sys/class/hwmon/hwmon0/pwm1").unwrap();
    assert!(g.root().journal().is_empty());
    let done = g.release_all();
    assert_eq!(done, vec![("/sys/class/hwmon/hwmon0/pwm1_enable".to_string(), Restored::Original)]);
    assert_eq!(g.root().read("/sys/class/hwmon/hwmon0/pwm1_enable").as_deref(), Some("2"));
    assert!(g.release_all().is_empty());
}

#[test]
fn an_unreadable_enable_is_refused() {
    let mut root = desktop(Root::system());
    root.add(Node {
        path: "/sys/class/hwmon/hwmon0/pwm1_enable".to_string(),
        kind: NodeKind::File { data: None },
        writable: true,
    });
    let mut g = Guard::new(root);
    assert_eq!(
        g.take("/sys/class/hwmon/hwmon0/pwm1").unwrap_err(),
        "/sys/class/hwmon/hwmon0/pwm1_enable is unreadable"
    );
}

#[test]
fn a_take_the_machine_refused_records_nothing() {
    let mut g = Guard::new(desktop(Root::system()));
    let was_held = g.holds("/sys/class/hwmon/hwmon0/pwm1");
    g.take("/sys/class/hwmon/hwmon0/pwm1").unwrap();
    assert!(g.holds("/sys/class/hwmon/hwmon0/pwm1"));
    let err = g
        .confirm_take("/sys/class/hwmon/hwmon0/pwm1", was_held, Err("firmware kept 5".into()))
        .unwrap_err();
    assert_eq!(err, "could not take control of /sys/class/hwmon/hwmon0/pwm1: firmware kept 5");
    assert!(!g.holds("/sys/class/hwmon/hwmon0/pwm1"));
    assert!(g.held().is_empty());
}

#[test]
fn a_take_the_machine_accepted_is_kept() {
    let mut g = Guard::new(desktop(Root::system()));
    g.take("/sys/class/hwmon/hwmon0/pwm1").unwrap();
    assert_eq!(g.confirm_take("/sys/class/hwmon/hwmon0/pwm1", false, Ok(())), Ok(()));
    assert!(g.holds("/sys/class/hwmon/hwmon0/pwm1"));
}

#[test]
fn taking_a_held_channel_again_keeps_the_mode_it_was_found_in() {
    let mut g = Guard::new(desktop(Root::system()));
    g.take("/sys/class/hwmon/hwmon0/pwm1").unwrap();
    // Firmware takes the channel back across a suspend, into its plain
    // automatic mode, and the channel is taken again.
    let mut root = desktop(Root::system());
    put(&mut root, "/sys/class/hwmon/hwmon0/pwm1_enable", "2\n", true);
    g.observe(root);
    g.take("/sys/class/hwmon/hwmon0/pwm1").unwrap();
    assert_eq!(g.held(), vec!["/sys/class/hwmon/hwmon0/pwm1_enable".to_string()]);
    assert_eq!(g.release("/sys/class/hwmon/hwmon0/pwm1"), Some(Restored::Original));
    assert_eq!(g.root().read("/sys/class/hwmon/hwmon0/pwm1_enable").as_deref(), Some("5"));
}

#[test]
fn a_refused_hand_back_falls_back_to_automatic_then_stuck() {
    let attr = "/sys/class/hwmon/hwmon0/pwm1_enable";
    assert_eq!(hand_back_step(attr, Restored::Original, Ok(())), Ok(Restored::Original));
    assert_eq!(
        hand_back_step(attr, Restored::Original, Err("EIO".into())),
        Err((attr.to_string(), "2".to_string()))
    );
    assert_eq!(hand_back_step(attr, Restored::Automatic, Ok(())), Ok(Restored::Automatic));
    assert_eq!(hand_back_step(attr, Restored::Automatic, Err("EIO".into())), Ok(Restored::Stuck));
    assert_eq!(hand_back_step(attr, Restored::Stuck, Ok(())), Ok(Restored::Stuck));
}

#[test]
fn a_curve_needs_a_duty_and_a_sensor_that_exist() {
    let hw = Hardware::discover(desktop(Root::system()), UPower::new(false));
    let none: Vec<String> = Vec::new();
    assert_eq!(
        plan_drive(&hw, &none, "hwmon/nct6798/pwm1", "hwmon/nct6798/temp1"),
        Ok(("/sys/class/hwmon/hwmon0/pwm1".to_string(), true))
    );
    let driven = vec!["hwmon/nct6798/pwm1".to_string()];
    assert_eq!(
        plan_drive(&hw, &driven, "hwmon/nct6798/pwm1", "hwmon/nct6798/temp1"),
        Ok(("/sys/class/hwmon/hwmon0/pwm1".to_string(), false))
    );
    assert_eq!(
        plan_drive(&hw, &none, "hwmon/nct6798/pwm1", "hwmon/gone/temp9"),
        Err("no sensor called \"hwmon/gone/temp9\" on this machine".to_string())
    );
    assert!(plan_drive(&hw, &none, "hwmon/nct6798/pwm1_enable", "hwmon/nct6798/temp1")
        .unwrap_err()
        .contains("is not a fan duty cycle"));
    assert_eq!(plan_release(&driven, "hwmon/nct6798/pwm1"), Ok(0));
    assert_eq!(
        plan_release(&none, "hwmon/nct6798/pwm1"),
        Err("hwmon/nct6798/pwm1 is not being driven".to_string())
    );
    assert_eq!(
        plan_set(&hw, &driven, "hwmon/nct6798/pwm1"),
        (Some("/sys/class/hwmon/hwmon0/pwm1".to_string()), true)
    );
    assert_eq!(plan_set(&hw, &driven, "hwmon/nct6798/pwm1_enable"), (None, false));
    let readings = hw.readings();
    assert_eq!(
        find_reading(&readings, "hwmon/nct6798/temp1").map(|i| readings[i].id.clone()),
        Some("hwmon/nct6798/temp1".to_string())
    );
    assert_eq!(find_reading(&readings, "nothing"), None);
}
