//! Discovery, run against captured trees of machines that are not this one.
//!
//! Each tree below is built in memory, file by file, the way `--capture` lays a
//! machine out, and is held by a read-only root, as a captured tree always is.

use raven_controls::backlight::upower::UPower;
use raven_controls::diagnose::report;
use raven_controls::model::{Domain, Knob, Role, Setting, Unit};
use raven_controls::probe::probe_report;
use raven_controls::provider::Hardware;
use raven_controls::sysfs::{Node, NodeKind, Root};

fn put(root: &mut Root, path: &str, text: &str) {
    root.add(Node {
        path: path.to_string(),
        kind: NodeKind::File { data: Some(text.as_bytes().to_vec()) },
        writable: false,
    });
}

fn folder(root: &mut Root, path: &str) {
    root.add(Node { path: path.to_string(), kind: NodeKind::Dir, writable: false });
}

fn link(root: &mut Root, path: &str, target: &str) {
    root.add(Node {
        path: path.to_string(),
        kind: NodeKind::Link { target: target.to_string() },
        writable: false,
    });
}

fn led(root: &mut Root, name: &str, brightness: u32, max: u32) {
    let dir = format!("/sys/class/leds/{name}");
    folder(root, &dir);
    put(root, &format!("{dir}/brightness"), &format!("{brightness}\n"));
    put(root, &format!("{dir}/max_brightness"), &format!("{max}\n"));
}

fn identity(root: &mut Root, vendor: &str, product: &str, release: &str) {
    put(root, "/sys/class/dmi/id/sys_vendor", &format!("{vendor}\n"));
    put(root, "/sys/class/dmi/id/product_name", &format!("{product}\n"));
    put(root, "/proc/sys/kernel/osrelease", &format!("{release}\n"));
}

fn zephyrus(root: &mut Root) {
    identity(root, "ASUSTeK COMPUTER INC.", "ROG Zephyrus M GU502DU_GA502DU", "6.8.0-raven");
    led(root, "asus::kbd_backlight", 2, 3);
    for n in 0..2 {
        for function in ["capslock", "numlock", "scrolllock", "compose", "kana"] {
            led(root, &format!("input{n}::{function}"), 0, 1);
        }
    }
    led(root, "phy0-led", 1, 1);
    folder(root, "/sys/class/hwmon/hwmon0");
    put(root, "/sys/class/hwmon/hwmon0/name", "acpitz\n");
    put(root, "/sys/class/hwmon/hwmon0/temp1_input", "46000\n");
    for (n, kind) in ["Processor", "Processor", "LCD", "intel_powerclamp"].iter().enumerate() {
        let dir = format!("/sys/class/thermal/cooling_device{n}");
        folder(root, &dir);
        put(root, &format!("{dir}/type"), &format!("{kind}\n"));
        put(root, &format!("{dir}/max_state"), "3\n");
        put(root, &format!("{dir}/cur_state"), "0\n");
    }
    folder(root, "/sys/devices/platform/asus-nb-wmi");
    put(
        root,
        "/boot/config-6.8.0-raven",
        "CONFIG_ASUS_WMI=m\nCONFIG_ASUS_NB_WMI=m\n# CONFIG_SENSORS_ASUS_EC is not set\n\
         # CONFIG_SENSORS_ASUS_WMI is not set\nCONFIG_SENSORS_NCT6775=m\n",
    );
    put(root, "/proc/modules", "snd_hda_intel 61440 4 - Live 0x0\namdgpu 12288000 12 - Live 0x0\n");
}

fn zephyrus_with_module(root: &mut Root) {
    zephyrus(root);
    put(root, "/sys/devices/platform/asus-nb-wmi/throttle_thermal_policy", "0\n");
    put(root, "/sys/devices/platform/asus-nb-wmi/fan_boost_mode", "0\n");
    put(root, "/sys/firmware/acpi/platform_profile", "balanced\n");
    put(root, "/sys/firmware/acpi/platform_profile_choices", "quiet balanced performance\n");
    put(
        root,
        "/proc/modules",
        "asus_nb_wmi 32768 0 - Live 0x0\nasus_wmi 77824 1 asus_nb_wmi, Live 0x0\n",
    );
}

fn thinkpad_t14(root: &mut Root) {
    identity(root, "LENOVO", "20S0CTO1WW", "6.8.0-raven");
    led(root, "tpacpi::kbd_backlight", 1, 2);
    led(root, "tpacpi::power", 1, 1);
    led(root, "platform::mute", 0, 1);
    put(root, "/proc/acpi/ibm/fan", "status:\t\tenabled\nspeed:\t\t3100\nlevel:\t\tauto\n");
    put(root, "/sys/firmware/acpi/platform_profile", "balanced\n");
    put(root, "/sys/firmware/acpi/platform_profile_choices", "low-power balanced performance\n");
    folder(root, "/sys/class/hwmon/hwmon3");
    put(root, "/sys/class/hwmon/hwmon3/name", "thinkpad\n");
    put(root, "/sys/class/hwmon/hwmon3/pwm1", "92\n");
    put(root, "/sys/class/hwmon/hwmon3/pwm1_enable", "2\n");
    put(root, "/sys/class/hwmon/hwmon3/fan1_input", "3100\n");
    put(root, "/sys/class/hwmon/hwmon3/temp1_input", "52000\n");
}

fn macbook(root: &mut Root) {
    identity(root, "Apple Inc.", "MacBookPro11,1", "6.8.0-raven");
    led(root, "smc::kbd_backlight", 128, 255);
    folder(root, "/sys/class/hwmon/hwmon1");
    put(root, "/sys/class/hwmon/hwmon1/name", "applesmc\n");
    put(root, "/sys/class/hwmon/hwmon1/fan1_input", "2160\n");
    put(root, "/sys/class/hwmon/hwmon1/fan1_label", "Exhaust\n");
    put(root, "/sys/class/hwmon/hwmon1/fan1_min", "2000\n");
    put(root, "/sys/class/hwmon/hwmon1/fan1_max", "6200\n");
    put(root, "/sys/class/hwmon/hwmon1/fan1_manual", "0\n");
    put(root, "/sys/class/hwmon/hwmon1/temp1_input", "48000\n");
}

fn rgb_keyboard(root: &mut Root) {
    identity(root, "System76", "Darter Pro", "6.8.0-raven");
    led(root, "rgb:kbd_backlight", 200, 255);
    put(root, "/sys/class/leds/rgb:kbd_backlight/multi_index", "red green blue\n");
    put(root, "/sys/class/leds/rgb:kbd_backlight/multi_intensity", "255 128 0\n");
    led(root, "input2::capslock", 0, 1);
}

fn desktop_nct6798(root: &mut Root) {
    identity(root, "ASUSTeK COMPUTER INC.", "ROG STRIX B550-F GAMING", "6.8.0-raven");
    let board = "/sys/class/hwmon/hwmon2";
    folder(root, board);
    put(root, &format!("{board}/name"), "nct6798\n");
    for n in 1..=5 {
        put(root, &format!("{board}/pwm{n}"), "128\n");
        put(root, &format!("{board}/pwm{n}_enable"), "5\n");
        put(root, &format!("{board}/pwm{n}_mode"), "1\n");
        put(root, &format!("{board}/fan{n}_input"), &format!("{}\n", 700 + 100 * n));
    }
    put(root, &format!("{board}/fan1_label"), "CPU fan\n");
    put(root, &format!("{board}/temp1_input"), "41000\n");
    put(root, &format!("{board}/temp1_crit"), "95000\n");
    put(root, &format!("{board}/temp1_label"), "SYSTIN\n");
    let gpu = "/sys/class/hwmon/hwmon3";
    folder(root, gpu);
    put(root, &format!("{gpu}/name"), "amdgpu\n");
    put(root, &format!("{gpu}/pwm1"), "70\n");
    put(root, &format!("{gpu}/pwm1_enable"), "2\n");
    put(root, &format!("{gpu}/fan1_input"), "1100\n");
    put(root, &format!("{gpu}/temp1_input"), "38000\n");
}

fn dual_gpu(root: &mut Root) {
    identity(root, "Micro-Star International Co., Ltd.", "MS-7C56", "6.8.0-raven");
    for (n, address) in [(0, "0000:03:00.0"), (1, "0000:08:00.0")] {
        let dir = format!("/sys/class/hwmon/hwmon{n}");
        folder(root, &dir);
        put(root, &format!("{dir}/name"), "amdgpu\n");
        link(root, &format!("{dir}/device"), &format!("../../../{address}"));
        put(root, &format!("{dir}/pwm1"), "64\n");
        put(root, &format!("{dir}/pwm1_enable"), "2\n");
        put(root, &format!("{dir}/fan1_input"), "900\n");
    }
}

fn acpi_fan(root: &mut Root) {
    identity(root, "Intel Corporation", "NUC", "6.8.0-raven");
    for (n, kind, max, cur) in [(0, "Processor", 3, 0), (1, "Fan", 9, 3), (2, "intel_powerclamp", 50, 0)] {
        let dir = format!("/sys/class/thermal/cooling_device{n}");
        folder(root, &dir);
        put(root, &format!("{dir}/type"), &format!("{kind}\n"));
        put(root, &format!("{dir}/max_state"), &format!("{max}\n"));
        put(root, &format!("{dir}/cur_state"), &format!("{cur}\n"));
    }
    put(root, "/sys/class/thermal/cooling_device1/fan_speed_rpm", "2800\n");
}

fn multi_handler_profile(root: &mut Root) {
    identity(root, "Framework", "Laptop 13 (AMD Ryzen 7040Series)", "6.14.0-raven");
    let dir = "/sys/class/platform-profile/platform-profile-0";
    folder(root, dir);
    put(root, &format!("{dir}/name"), "amd-pmf\n");
    put(root, &format!("{dir}/profile"), "balanced\n");
    put(root, &format!("{dir}/choices"), "low-power balanced performance\n");
    put(root, "/sys/firmware/acpi/platform_profile", "balanced\n");
    put(root, "/sys/firmware/acpi/platform_profile_choices", "low-power balanced performance\n");
}

fn bare_machine(root: &mut Root) {
    identity(root, "Dell Inc.", "Latitude 7490", "6.8.0-raven");
    put(
        root,
        "/boot/config-6.8.0-raven",
        "CONFIG_SENSORS_DELL_SMM=m\n# CONFIG_SENSORS_NCT6775 is not set\n# CONFIG_SENSORS_IT87 is not set\n",
    );
    put(root, "/proc/modules", "i915 4096000 30 - Live 0x0\n");
}

fn machine(name: &str) -> Hardware {
    let mut root = Root::at(&format!("/captured/{name}"));
    match name {
        "zephyrus-gu502du" => zephyrus(&mut root),
        "zephyrus-with-module" => zephyrus_with_module(&mut root),
        "thinkpad-t14" => thinkpad_t14(&mut root),
        "macbook-applesmc" => macbook(&mut root),
        "rgb-keyboard" => rgb_keyboard(&mut root),
        "desktop-nct6798" => desktop_nct6798(&mut root),
        "dual-gpu" => dual_gpu(&mut root),
        "acpi-fan" => acpi_fan(&mut root),
        "multi-handler-profile" => multi_handler_profile(&mut root),
        "bare-machine" => bare_machine(&mut root),
        other => panic!("missing fixture {other}"),
    }
    Hardware::discover(root, UPower::new(false))
}

fn backlights(hw: &Hardware) -> Vec<Knob> {
    hw.knobs_for(Role::KeyboardBacklight)
}

#[test]
fn one_matcher_finds_the_keyboard_light_on_four_different_vendors() {
    for (name, expected_max) in [
        ("zephyrus-gu502du", 3u32),
        ("thinkpad-t14", 2),
        ("macbook-applesmc", 255),
        ("rgb-keyboard", 255),
    ] {
        let hw = machine(name);
        let found = backlights(&hw);
        let brightness = found
            .iter()
            .find(|k| !k.id.ends_with("/color"))
            .unwrap_or_else(|| panic!("{name}: no keyboard backlight found"));
        assert_eq!(brightness.domain, Domain::Percent { raw_max: expected_max }, "{name} got the wrong range");
        assert_eq!(brightness.label, "Keyboard backlight", "{name}");
    }
}

#[test]
fn the_other_leds_on_the_keyboard_are_not_mistaken_for_the_backlight() {
    let hw = machine("zephyrus-gu502du");
    let found = backlights(&hw);
    assert_eq!(found.len(), 1, "found {found:#?}");
    assert_eq!(found[0].id, "leds/asus::kbd_backlight");
}

#[test]
fn a_multicolour_keyboard_gets_a_colour_control_as_well_as_a_brightness_one() {
    let hw = machine("rgb-keyboard");
    let found = backlights(&hw);
    assert_eq!(found.len(), 2, "{found:#?}");
    let colour = found.iter().find(|k| k.id.ends_with("/color")).unwrap();
    assert_eq!(
        colour.domain,
        Domain::Color { channels: vec!["red".into(), "green".into(), "blue".into()], raw_max: 255 }
    );
    assert_eq!(colour.value, Setting::Color { intensities: vec![255, 128, 0] });
}

#[test]
fn a_desktop_with_no_keyboard_light_simply_has_none() {
    assert!(backlights(&machine("desktop-nct6798")).is_empty());
}

#[test]
fn a_super_io_boards_five_headers_and_its_gpu_all_appear() {
    let hw = machine("desktop-nct6798");
    let duties = hw.knobs_for(Role::FanDuty);
    assert_eq!(duties.len(), 6, "{:#?}", duties.iter().map(|k| &k.id).collect::<Vec<_>>());
    assert!(duties.iter().any(|k| k.id == "hwmon/nct6798/pwm1"));
    assert!(duties.iter().any(|k| k.id == "hwmon/amdgpu/pwm1"));
    assert!(duties.iter().any(|k| k.label.starts_with("CPU fan")));

    let readings = hw.readings();
    assert_eq!(readings.iter().filter(|r| r.unit == Unit::Rpm).count(), 6);
    // Temperatures are carried in the kernel's own millidegrees: 41 and 95 °C.
    let hot = readings.iter().find(|r| r.id == "hwmon/nct6798/temp1").unwrap();
    assert_eq!(hot.value, 41000);
    assert_eq!(hot.critical, Some(95000));
}

#[test]
fn two_identical_gpus_get_two_distinguishable_controls() {
    let hw = machine("dual-gpu");
    let duties = hw.knobs_for(Role::FanDuty);
    assert_eq!(duties.len(), 2);
    let ids: Vec<&str> = duties.iter().map(|k| k.id.as_str()).collect();
    assert!(ids.iter().all(|id| id.contains("0000:")), "{ids:?}");
    assert_ne!(ids[0], ids[1]);
}

#[test]
fn a_fan_the_kernel_can_only_read_gives_a_reading_and_no_control() {
    let hw = machine("macbook-applesmc");
    assert!(hw.knobs_for(Role::FanDuty).is_empty());
    let rpm = hw.readings().iter().find(|r| r.unit == Unit::Rpm).cloned();
    assert_eq!(rpm.map(|r| r.value), Some(2160));
}

#[test]
fn an_acpi_fan_becomes_steps_and_the_throttles_beside_it_are_left_alone() {
    let hw = machine("acpi-fan");
    let knobs = hw.knobs_for(Role::ThermalProfile);
    assert_eq!(knobs.len(), 1, "{knobs:#?}");
    let fan = &knobs[0];
    assert!(fan.label.contains("Fan"));
    let Domain::Steps { labels } = &fan.domain else { panic!("{:?}", fan.domain) };
    assert_eq!(labels.len(), 10);
    assert_eq!(labels[0], "Off");
    assert_eq!(labels[9], "9 (maximum)");
    assert_eq!(fan.value, Setting::Step { index: 3 });
    assert!(hw.readings().iter().any(|r| r.value == 2800));
}

#[test]
fn the_acpi_platform_profile_is_read_from_either_kernel_layout() {
    for name in ["thinkpad-t14", "multi-handler-profile"] {
        let hw = machine(name);
        let profile = hw
            .knobs_for(Role::ThermalProfile)
            .into_iter()
            .find(|k| k.provider == "platform-profile")
            .unwrap_or_else(|| panic!("{name}: no platform profile"));
        let Domain::Modes { options } = &profile.domain else { panic!("{name}: {:?}", profile.domain) };
        assert!(options.contains(&"Balanced".to_string()), "{name}: {options:?}");
        assert_eq!(profile.value, Setting::Mode { name: "Balanced".into() });
    }
}

#[test]
fn the_new_kernel_layout_and_its_compatibility_alias_are_one_control_not_two() {
    let hw = machine("multi-handler-profile");
    let profiles: Vec<_> = hw
        .knobs_for(Role::ThermalProfile)
        .into_iter()
        .filter(|k| k.provider == "platform-profile")
        .collect();
    assert_eq!(profiles.len(), 1, "{profiles:#?}");
}

#[test]
fn a_thinkpads_procfs_fan_turns_into_levels_and_a_speed() {
    let hw = machine("thinkpad-t14");
    let fan = hw.knob("vendor/thinkpad/fan").expect("no ThinkPad fan control");
    assert_eq!(fan.value, Setting::Mode { name: "Automatic".into() });
    let Domain::Modes { options } = &fan.domain else { panic!() };
    assert_eq!(options.len(), 10);
    assert!(hw.readings().iter().any(|r| r.id == "vendor/thinkpad/fan" && r.value == 3100));
}

#[test]
fn asus_specific_knobs_are_found_by_attribute_not_by_driver_directory_name() {
    let hw = machine("zephyrus-with-module");
    let knobs = hw.knobs_for(Role::ThermalProfile);
    let throttle = knobs.iter().find(|k| k.label == "Throttle policy").unwrap();
    assert_eq!(throttle.value, Setting::Mode { name: "Balanced".into() });
    assert!(throttle.origin.contains("sysfs-platform-asus-wmi"));
    assert!(knobs.iter().any(|k| k.label == "Fan boost"));
    assert!(knobs.iter().any(|k| k.provider == "platform-profile"));
}

#[test]
fn a_thinkpad_offers_every_layer_it_has_at_once() {
    let hw = machine("thinkpad-t14");
    assert!(!backlights(&hw).is_empty());
    assert!(!hw.knobs_for(Role::FanDuty).is_empty());
    assert!(!hw.knobs_for(Role::FanControlMode).is_empty());
    let coarse = hw.knobs_for(Role::ThermalProfile);
    assert!(coarse.iter().any(|k| k.provider == "platform-profile"));
    assert!(coarse.iter().any(|k| k.provider == "vendor"));
}

#[test]
fn a_bare_machine_is_told_what_would_give_it_a_fan_interface() {
    let hw = machine("bare-machine");
    assert!(hw.knobs_for(Role::FanDuty).is_empty());
    let report = report(hw.root());
    assert_eq!(report.vendor, "Dell Inc.");
    let lines: Vec<String> = report.suggestions.iter().map(|s| s.line()).collect();
    let joined = lines.join("\n");
    assert!(joined.contains("modprobe dell_smm_hwmon"), "{joined}");
    assert!(joined.contains("CONFIG_SENSORS_NCT6775"), "{joined}");
    assert!(!joined.contains("modprobe nct6775"), "{joined}");
}

#[test]
fn this_very_laptop_is_diagnosed_rather_than_shrugged_at() {
    let hw = machine("zephyrus-gu502du");
    assert_eq!(backlights(&hw).len(), 1);
    assert!(hw.knobs_for(Role::FanDuty).is_empty());
    assert!(hw.knobs_for(Role::ThermalProfile).is_empty());

    let lines: Vec<String> = report(hw.root()).suggestions.iter().map(|s| s.line()).collect();
    let joined = lines.join("\n");
    assert!(joined.contains("modprobe asus_nb_wmi"), "{joined}");
    assert!(joined.contains("CONFIG_SENSORS_ASUS_EC"), "{joined}");
    assert!(!joined.contains("modprobe asus_ec_sensors"), "{joined}");
}

#[test]
fn what_the_diagnosis_promises_is_what_loading_the_module_delivers() {
    let before = machine("zephyrus-gu502du");
    let after = machine("zephyrus-with-module");
    assert!(before.knobs_for(Role::ThermalProfile).is_empty());
    let labels: Vec<String> = after.knobs_for(Role::ThermalProfile).into_iter().map(|k| k.label).collect();
    assert!(labels.contains(&"Platform profile".to_string()), "{labels:?}");
    assert!(labels.contains(&"Throttle policy".to_string()), "{labels:?}");
    assert!(labels.contains(&"Fan boost".to_string()), "{labels:?}");
}

#[test]
fn nothing_in_a_captured_tree_is_writable() {
    for name in ["thinkpad-t14", "desktop-nct6798", "rgb-keyboard"] {
        let mut hw = machine(name);
        for knob in hw.knobs() {
            assert!(!knob.writable, "{name}: {} claims to be writable", knob.id);
        }
        let first = hw.knobs()[0].clone();
        // Full scale, whatever the attribute's own range is.
        let full = match first.domain {
            Domain::Percent { raw_max } => raw_max,
            _ => 100,
        };
        let err = hw.set(&first.id, &Setting::Percent { raw: full }).unwrap_err();
        assert!(err.contains("not writable"), "{err}");
        assert!(hw.root().journal().is_empty());
    }
}

#[test]
fn a_probe_lists_every_control_reading_and_provider() {
    let hw = machine("acpi-fan");
    let labels = "[\"Off\", \"1\", \"2\", \"3\", \"4\", \"5\", \"6\", \"7\", \"8\", \"9 (maximum)\"]";
    let expected = format!(
        "Intel Corporation NUC, Linux 6.8.0-raven\n\
         raven-controlsd: running\n\
         \n== controls\n\
         \x20 [ThermalProfile] Fan (cooling_device1)\n\
         \x20     id       cooling/cooling_device1\n\
         \x20     domain   Steps {{ labels: {labels} }}\n\
         \x20     value    Step {{ index: 3 }}\n\
         \x20     writable false\n\
         \x20     from     /captured/acpi-fan/sys/class/thermal/cooling_device1/cur_state via cooling-device\n\
         \n== sensors\n\
         \x20 cooling/cooling_device1/rpm  2800 RPM\n\
         \x20     /captured/acpi-fan/sys/class/thermal/cooling_device1/fan_speed_rpm\n\
         \n== providers\n\
         \x20 leds               0 found\n\
         \x20 upower             0 found\n\
         \x20 hwmon              0 found\n\
         \x20 platform-profile   0 found\n\
         \x20 cooling-device     2 found\n\
         \x20 vendor             0 found\n"
    );
    assert_eq!(probe_report(&hw, true), expected);
}

#[test]
fn a_probe_of_a_bare_machine_says_why_and_what_would_help() {
    let hw = machine("bare-machine");
    let text = probe_report(&hw, false);
    assert!(text.starts_with(
        "Dell Inc. Latitude 7490, Linux 6.8.0-raven\n\
         raven-controlsd: not running (fan curves and manual duty unavailable)\n\
         \n== controls\n  none\n\
         \n== sensors\n  none\n"
    ), "{text}");
    let why = text.split("\n== why there is no fan control here\n").nth(1).expect("no diagnosis");
    assert!(why.starts_with("  dell_smm_hwmon would add fan speeds and PWM control"), "{why}");
    assert!(why.contains("\n      sudo modprobe dell_smm_hwmon\n"), "{why}");
    assert!(why.contains("  nct6775 would add PWM fan control on most desktop boards, but this kernel was built without CONFIG_SENSORS_NCT6775.\n"), "{why}");
    assert!(!why.contains("Nothing known would help"));
}

#[test]
fn a_probe_with_nothing_to_suggest_asks_for_a_capture() {
    let mut root = Root::at("/captured/unknown");
    identity(&mut root, "", "", "6.8.0");
    // Both Super-I/O drivers are loaded and found nothing; no vendor module
    // applies to an unnamed machine.
    put(&mut root, "/proc/modules", "nct6775 98304 0 - Live 0x0\nit87 61440 0 - Live 0x0\n");
    let hw = Hardware::discover(root, UPower::new(false));
    let text = probe_report(&hw, false);
    assert!(text.ends_with(
        "\n== why there is no fan control here\n  Nothing known would help. Capture this machine with:\n      raven-controls --capture ~/machine\n"
    ), "{text}");
}
