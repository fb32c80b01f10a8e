use raven_controls::backlight::leds::{is_keyboard_backlight, label_for};
use raven_controls::fan::cooling::is_fan;
use raven_controls::fan::hwmon::{enable_label, enable_modes, enable_value, split_id};
use raven_controls::fan::profile::pretty;
use raven_controls::natural::natural_cmp;

#[test]
fn every_vendors_spelling_of_the_function_is_recognised() {
    for name in [
        "asus::kbd_backlight",
        "dell::kbd_backlight",
        "tpacpi::kbd_backlight",
        "smc::kbd_backlight",
        "chromeos::kbd_backlight",
        "platform::kbd_backlight",
        "system76_acpi::kbd_backlight",
        "hp::kbd_backlight",
        "rgb:kbd_backlight",
    ] {
        assert!(is_keyboard_backlight(name), "missed {name}");
    }
}

#[test]
fn other_leds_on_the_same_machine_are_left_alone() {
    for name in [
        "input21::capslock",
        "input21::numlock",
        "rtw88-0000:03:00.0",
        "phy0-led",
        "intel_backlight",
    ] {
        assert!(!is_keyboard_backlight(name), "wrongly claimed {name}");
    }
}

#[test]
fn a_single_light_is_not_labelled_with_its_driver() {
    assert_eq!(label_for("asus::kbd_backlight", false), "Keyboard backlight");
    assert_eq!(label_for("asus::kbd_backlight", true), "Keyboard backlight (asus)");
}

#[test]
fn only_fans_are_offered_as_fans() {
    assert!(is_fan("Fan"));
    assert!(is_fan("INT3404 Fan"));
    assert!(is_fan("TFN1 Fan"));
    assert!(!is_fan("Processor"));
    assert!(!is_fan("LCD"));
    assert!(!is_fan("intel_powerclamp"));
    assert!(!is_fan("TCPU"));
}

#[test]
fn the_abi_modes_round_trip() {
    for v in [0, 1, 2, 5] {
        assert_eq!(enable_value(&enable_label(v)), Some(v), "mode {v}");
    }
}

#[test]
fn a_drivers_own_automatic_mode_stays_on_the_menu() {
    let modes = enable_modes(5, true);
    assert_eq!(modes[0], "Automatic (driver mode 5)");
    assert!(modes.contains(&"Manual".to_string()));
    assert!(modes.contains(&"Automatic".to_string()));
}

#[test]
fn the_ordinary_case_offers_exactly_three() {
    assert_eq!(enable_modes(2, true), vec!["Automatic", "Manual", "Full speed"]);
}

#[test]
fn manual_is_not_offered_when_there_is_no_duty_to_set() {
    let modes = enable_modes(2, false);
    assert_eq!(modes, vec!["Automatic", "Full speed"]);
}

#[test]
fn a_driver_already_sitting_in_manual_can_still_show_it() {
    assert_eq!(enable_modes(1, false)[0], "Manual");
}

#[test]
fn ids_split_back_apart_including_bus_qualified_chips() {
    assert_eq!(
        split_id("hwmon/nct6798/pwm2").unwrap(),
        ("nct6798".to_string(), "pwm2".to_string())
    );
    assert_eq!(
        split_id("hwmon/amdgpu@0000:03:00.0/pwm1_enable").unwrap(),
        ("amdgpu@0000:03:00.0".to_string(), "pwm1_enable".to_string())
    );
    assert!(split_id("leds/x").is_err());
}

#[test]
fn kernel_names_become_readable_without_losing_the_original() {
    assert_eq!(pretty("low-power"), "Low power");
    assert_eq!(pretty("balanced"), "Balanced");
    assert_eq!(pretty("performance"), "Performance");
    assert_eq!(pretty("quiet"), "Quiet");
    assert_eq!(pretty("balanced-performance"), "Balanced performance");
}

#[test]
fn numeric_suffixes_sort_numerically() {
    let mut v = vec!["pwm10", "pwm2", "pwm1", "hwmon3"];
    v.sort_by(|a, b| natural_cmp(a, b));
    assert_eq!(v, vec!["hwmon3", "pwm1", "pwm2", "pwm10"]);
}

#[test]
fn an_unknown_driver_mode_is_named_by_its_number() {
    assert_eq!(enable_label(4), "Automatic (driver mode 4)");
    assert_eq!(enable_value("Automatic (driver mode 17)"), Some(17));
    assert_eq!(enable_value("Automatic (driver mode x)"), None);
    assert_eq!(enable_value("Turbo"), None);
}

#[test]
fn an_id_without_an_attribute_is_refused_with_a_reason() {
    assert_eq!(split_id("hwmon/nct6798").unwrap_err(), "hwmon/nct6798 names no attribute");
    assert_eq!(split_id("leds/x").unwrap_err(), "leds/x is not an hwmon control");
}
