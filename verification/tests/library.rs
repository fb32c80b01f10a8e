use std::io::Write;

use raven_controls::capture::{destination, files, platform_attrs, skip, summary, trees};
use raven_controls::client::{diagnosis, temperatures, unsafe_without_daemon, Via};
use raven_controls::config::{is_hex, Appearance, ThemeMode, DEFAULT_ACCENT};
use raven_controls::curve::Reason;
use raven_controls::daemon::{
    drive_duty, emergency_release, flag, gid_from_group_file, hand_back, next_deadline,
    uid_from_status, watchdog,
};
use raven_controls::diagnose::{kernel_config, report, Availability};
use raven_controls::machine;
use raven_controls::model::{Domain, Knob, Reading, Role, Setting, Unit};
use raven_controls::natural::natural_cmp;
use raven_controls::sysfs::{carry_step, check_read_back, write_outcome, Node, NodeKind, Root};
use raven_controls::window::{domain_tag, read_only_reason, rgb_indices, short_sensor, signature};

fn knob(role: Role) -> Knob {
    Knob {
        id: "test".into(),
        label: "Fan".into(),
        role,
        domain: Domain::Percent { raw_max: 255 },
        value: Setting::Percent { raw: 0 },
        writable: true,
        provider: "hwmon".into(),
        origin: "/sys/class/hwmon/hwmon0/pwm1".into(),
    }
}

fn file(root: &mut Root, path: &str, bytes: &[u8], writable: bool) {
    root.add(Node {
        path: path.to_string(),
        kind: NodeKind::File { data: Some(bytes.to_vec()) },
        writable,
    });
}

fn directory(root: &mut Root, path: &str) {
    root.add(Node { path: path.to_string(), kind: NodeKind::Dir, writable: false });
}

#[test]
fn a_manual_duty_is_refused_when_nothing_would_hand_the_fan_back() {
    let refusal = unsafe_without_daemon(&knob(Role::FanDuty), &Setting::Percent { raw: 77 });
    assert!(refusal.unwrap().contains("raven-controlsd"));
}

#[test]
fn switching_a_fan_to_manual_is_refused_for_the_same_reason() {
    for mode in ["Manual", "Full speed"] {
        assert!(
            unsafe_without_daemon(&knob(Role::FanControlMode), &Setting::Mode { name: mode.into() })
                .is_some(),
            "{mode} was allowed"
        );
    }
}

#[test]
fn handing_a_fan_back_to_firmware_never_needs_the_daemon() {
    assert!(unsafe_without_daemon(
        &knob(Role::FanControlMode),
        &Setting::Mode { name: "Automatic".into() },
    )
    .is_none());
}

#[test]
fn a_drivers_own_automatic_mode_is_firmware_managed_too() {
    let mode = knob(Role::FanControlMode);
    let five = Setting::Mode { name: "Automatic (driver mode 5)".into() };
    assert!(unsafe_without_daemon(&mode, &five).is_none());
    let odd = Setting::Mode { name: "Turbo".into() };
    assert!(unsafe_without_daemon(&mode, &odd).is_some());
}

#[test]
fn the_keyboard_light_and_thermal_profiles_are_never_restricted() {
    assert!(unsafe_without_daemon(&knob(Role::KeyboardBacklight), &Setting::Percent { raw: 255 }).is_none());
    assert!(unsafe_without_daemon(
        &knob(Role::ThermalProfile),
        &Setting::Mode { name: "Performance".into() },
    )
    .is_none());
}

#[test]
fn the_refusal_names_the_fan_and_the_command() {
    let m = unsafe_without_daemon(&knob(Role::FanDuty), &Setting::Percent { raw: 1 }).unwrap();
    assert_eq!(
        m,
        "Taking manual control of Fan needs raven-controlsd, which is what hands the fan back to firmware when this window closes or crashes. Start it with:\n\n    sudo raven-controlsd\n\nFirmware-managed modes still work without it."
    );
}

#[test]
fn only_a_real_hex_colour_reaches_the_stylesheet() {
    assert!(is_hex("#7AA2F7"));
    assert!(is_hex("#000000"));
    assert!(!is_hex("7AA2F7"));
    assert!(!is_hex("#7AA2F"));
    assert!(!is_hex("#fff; } * { background: red"));
}

#[test]
fn the_defaults_are_the_raven_ones() {
    let a = Appearance::default();
    assert_eq!(a.theme_mode, ThemeMode::Dark);
    assert_eq!(a.accent, DEFAULT_ACCENT);
    assert!(a.transparency);
    assert!(is_hex(DEFAULT_ACCENT));
    assert!(!is_hex("#7aa2fg"));
    assert!(!is_hex("#7AA2F7 "));
}

#[test]
fn a_mode_is_checked_against_what_the_kernel_offered() {
    let domain = Domain::Modes { options: vec!["quiet".into(), "balanced".into()] };
    assert!(Setting::Mode { name: "quiet".into() }.check(&domain).is_ok());
    let err = Setting::Mode { name: "turbo".into() }.check(&domain).unwrap_err();
    assert!(err.contains("quiet, balanced"), "unhelpful message: {err}");
    assert_eq!(err, "\"turbo\" is not one of: quiet, balanced");
}

#[test]
fn colour_intensities_must_match_the_channel_count() {
    let domain = Domain::Color {
        channels: vec!["red".into(), "green".into(), "blue".into()],
        raw_max: 255,
    };
    assert!(Setting::Color { intensities: vec![255, 0, 0] }.check(&domain).is_ok());
    assert!(Setting::Color { intensities: vec![255, 0] }.check(&domain).is_err());
    assert!(Setting::Color { intensities: vec![300, 0, 0] }.check(&domain).is_err());
}

#[test]
fn a_setting_of_the_wrong_shape_says_both_shapes() {
    let err = Setting::Switch { on: true }.check(&Domain::Steps { labels: vec!["Off".into()] }).unwrap_err();
    assert_eq!(err, "Switch { on: true } does not fit a Steps { labels: [\"Off\"] } control");
    let err = Setting::Step { index: 3 }.check(&Domain::Steps { labels: vec!["Off".into()] }).unwrap_err();
    assert_eq!(err, "step 3 of 1 steps");
}

#[test]
fn readings_are_shown_in_their_units() {
    assert_eq!(Unit::Rpm.format(2500), "2500 RPM");
    assert_eq!(Unit::Celsius.format(41500), "42 °C");
    assert_eq!(Unit::Celsius.format(40500), "40 °C");
    assert_eq!(Role::FanDuty.heading(), "Fans");
    assert_eq!(Reason::Held.name(), "held");
}

#[test]
fn rgb_channels_are_found_whatever_order_the_driver_registered_them() {
    let channels = |v: &[&str]| v.iter().map(|s| s.to_string()).collect::<Vec<_>>();
    assert_eq!(rgb_indices(&channels(&["red", "green", "blue"])), Some((0, 1, 2)));
    assert_eq!(rgb_indices(&channels(&["blue", "red", "green"])), Some((1, 2, 0)));
    assert_eq!(rgb_indices(&channels(&["RED", "GREEN", "BLUE"])), Some((0, 1, 2)));
}

#[test]
fn a_keyboard_that_is_not_rgb_falls_back_to_per_channel_sliders() {
    let channels = vec!["white".to_string(), "amber".to_string()];
    assert_eq!(rgb_indices(&channels), None);
}

#[test]
fn a_changed_mode_list_rebuilds_the_row_rather_than_reusing_a_stale_menu() {
    let a = Domain::Modes { options: vec!["Automatic".into(), "Manual".into()] };
    let b = Domain::Modes { options: vec!["Automatic (driver mode 5)".into(), "Manual".into()] };
    assert_ne!(domain_tag(&a), domain_tag(&b));
    assert_eq!(domain_tag(&a), "modes[Automatic,Manual]");
    assert_eq!(domain_tag(&Domain::Percent { raw_max: 255 }), "percent255");
}

#[test]
fn a_sensor_id_shortens_to_something_readable_in_a_sentence() {
    assert_eq!(short_sensor("hwmon/nct6798/temp1"), "temp1");
    assert_eq!(short_sensor("temp1"), "temp1");
}

#[test]
fn the_window_signature_lists_what_the_rows_are_built_from() {
    let k = knob(Role::FanDuty);
    let r = Reading {
        id: "hwmon/nct6798/temp1".into(),
        label: "CPU".into(),
        unit: Unit::Celsius,
        value: 41000,
        critical: None,
        origin: "x".into(),
    };
    assert_eq!(
        signature(&vec![k.duplicate()], &vec![r.duplicate()], Via::Sysfs, 0, 2),
        "test:true:percent255|hwmon/nct6798/temp1|via=Sysfs|driving=0|diagnosis=2"
    );
    assert_eq!(temperatures(&vec![r]).len(), 1);
    assert!(read_only_reason(&k).starts_with("Read-only for this account: /sys/class/hwmon/hwmon0/pwm1 is owned by root."));
}

#[test]
fn a_capture_keeps_the_tree_shape_and_skips_the_noise() {
    assert_eq!(destination("/sys/class/leds/x/brightness", "/tmp/cap"), "/tmp/cap/sys/class/leds/x/brightness");
    assert_eq!(destination("/proc/modules", "/tmp/cap/"), "/tmp/cap/proc/modules");
    assert!(skip("uevent"));
    assert!(skip("power"));
    assert!(!skip("brightness"));
    assert_eq!(summary(&vec![], &vec![]), "  nothing\n");
    assert_eq!(summary(&vec![knob(Role::FanDuty)], &vec![]), "  test = Percent { raw: 0 }\n");
}

#[test]
fn a_fixture_root_refuses_writes() {
    let mut root = Root::at("/nonexistent-fixture");
    assert!(root.write("/sys/class/leds/x/brightness", "1").is_err());
    assert!(!root.writable("/sys/class/leds/x/brightness"));
}

#[test]
fn a_write_reads_back_trimmed_and_is_journalled() {
    let mut root = Root::system();
    file(&mut root, "/sys/class/leds/x/brightness", b"0\n", true);
    assert_eq!(root.write("/sys/class/leds/x/brightness", " 3 "), Ok(()));
    assert_eq!(root.read("/sys/class/leds/x/brightness").as_deref(), Some("3"));
    assert_eq!(root.journal(), &vec![("/sys/class/leds/x/brightness".to_string(), " 3 ".to_string())]);
    assert_eq!(
        root.write("/sys/class/leds/y/brightness", "1").unwrap_err(),
        "No such file or directory (os error 2)"
    );
    root.clear_journal();
    assert!(root.journal().is_empty());
}

#[test]
fn firmware_that_keeps_its_own_value_is_caught() {
    assert_eq!(
        check_read_back("/x/pwm1", "200", Some("128")).unwrap_err(),
        "/x/pwm1: wrote 200, firmware kept 128. The embedded controller is refusing to hand over this channel."
    );
    assert_eq!(check_read_back("/x/pwm1", "200", Some("200")), Ok(()));
    assert_eq!(check_read_back("/x/trigger", "none", Some("[none] timer")), Ok(()));
}

#[test]
fn bytes_that_are_not_text_are_read_with_replacement_characters() {
    let mut root = Root::at("/captured");
    file(&mut root, "/sys/class/dmi/id/sys_vendor", &[0x41, 0xff, 0x42], false);
    assert_eq!(root.read("/sys/class/dmi/id/sys_vendor").as_deref(), Some("A\u{FFFD}B"));
}

#[test]
fn a_directory_lists_in_natural_order() {
    let mut root = Root::at("/captured");
    for n in ["pwm10", "pwm2", "pwm1", "pwm1_enable"] {
        file(&mut root, &format!("/sys/class/hwmon/hwmon0/{n}"), b"1", false);
    }
    let names: Vec<String> = root.list("/sys/class/hwmon/hwmon0/").into_iter().map(|(n, _)| n).collect();
    assert_eq!(names, vec!["pwm1", "pwm2", "pwm10", "pwm1_enable"]);
    assert_eq!(natural_cmp("hwmon9", "hwmon10"), std::cmp::Ordering::Less);
}

#[test]
fn a_bare_pwm_is_a_channel_and_its_neighbours_are_not() {
    let mut root = Root::at("/captured");
    for n in ["pwm1", "pwm1_enable", "pwm1_mode", "pwm1_auto_point1_pwm", "pwm2"] {
        file(&mut root, &format!("/sys/class/hwmon/hwmon0/{n}"), b"1", false);
    }
    assert_eq!(raven_controls::fan::hwmon::pwm_channels(&root, "/sys/class/hwmon/hwmon0"), vec![1, 2]);
}

#[test]
fn the_compressed_kernel_config_is_read() {
    let text = "CONFIG_SENSORS_DELL_SMM=m\n# CONFIG_SENSORS_NCT6775 is not set\n";
    let mut e = flate2::write::GzEncoder::new(Vec::new(), flate2::Compression::default());
    e.write_all(text.as_bytes()).unwrap();
    let gz = e.finish().unwrap();
    let mut root = Root::at("/captured");
    file(&mut root, "/proc/config.gz", &gz, false);
    assert_eq!(kernel_config(&root).as_deref(), Some(text));

    let mut plain = Root::at("/captured");
    file(&mut plain, "/proc/sys/kernel/osrelease", b"6.8.0\n", false);
    file(&mut plain, "/proc/config.gz", b"not gzip at all", false);
    file(&mut plain, "/lib/modules/6.8.0/config", b"CONFIG_X=y\n", false);
    assert_eq!(kernel_config(&plain).as_deref(), Some("CONFIG_X=y"));
}

#[test]
fn a_machine_with_no_fan_interface_is_told_what_would_give_it_one() {
    let mut root = Root::at("/captured");
    file(&mut root, "/sys/class/dmi/id/sys_vendor", b"Dell Inc.\n", false);
    file(&mut root, "/sys/class/dmi/id/product_name", b"XPS 13\n", false);
    file(&mut root, "/proc/sys/kernel/osrelease", b"6.8.0\n", false);
    file(&mut root, "/boot/config-6.8.0", b"CONFIG_SENSORS_DELL_SMM=m\nCONFIG_SENSORS_IT87=y\n", false);
    file(&mut root, "/proc/modules", b"it87 40960 0 - Live 0x0\nintel-lpss 12288 0 - Live 0x0\n", false);
    let r = report(&root);
    assert_eq!(r.vendor, "Dell Inc.");
    let modules: Vec<&str> = r.suggestions.iter().map(|s| s.module.as_str()).collect();
    assert_eq!(modules, vec!["dell_smm_hwmon", "nct6775"]);
    assert_eq!(r.suggestions[0].availability, Availability::NotLoaded);
    assert_eq!(r.suggestions[1].availability, Availability::NotBuilt);
    let joined = diagnosis(&vec![], &root).join("\n");
    assert!(joined.contains("modprobe dell_smm_hwmon"), "{joined}");
    assert!(diagnosis(&vec![knob(Role::FanDuty)], &root).is_empty());
    assert_eq!(machine(&root), "Dell Inc. XPS 13, Linux 6.8.0");
    assert_eq!(machine(&Root::at("/empty")), "unknown machine, Linux ");
}

#[test]
fn the_daemon_reads_its_flags_and_ids() {
    let args: Vec<String> = ["raven-controlsd", "--socket", "/tmp/s", "--state"].iter().map(|s| s.to_string()).collect();
    assert_eq!(flag(&args, "--socket").as_deref(), Some("/tmp/s"));
    assert_eq!(flag(&args, "--state"), None);
    assert_eq!(flag(&args, "--nothing"), None);
    assert_eq!(uid_from_status("Name:\tx\nUid:\t1000\t1000\t1000\t1000\nGid:\t5\n"), Some(1000));
    assert_eq!(uid_from_status("Name:\tx\n"), None);
    assert_eq!(gid_from_group_file("root:x:0:\nvideo:x:44:alice,bob\n", "video"), Some(44));
    assert_eq!(gid_from_group_file("video:x\nvideo:x:45:\n", "video"), Some(45));
    assert_eq!(gid_from_group_file("audio:x:29:\n", "video"), None);
}

#[test]
fn the_clock_and_the_watchdog_decide_as_they_should() {
    assert_eq!(next_deadline(1000, 1500), 3000);
    assert_eq!(next_deadline(1000, 9000), 9000);
    assert_eq!(watchdog(false, true, 100, 70), (true, true));
    assert_eq!(watchdog(true, true, 100, 70), (true, false));
    assert_eq!(watchdog(true, true, 100, 90), (false, false));
    assert_eq!(watchdog(true, false, 100, 10), (false, false));
    assert_eq!(watchdog(false, true, 10, 100), (false, false));
}

#[test]
fn a_control_step_reclaims_and_writes_only_what_changed() {
    let mut root = Root::system();
    directory(&mut root, "/sys/class/hwmon/hwmon0");
    file(&mut root, "/sys/class/hwmon/hwmon0/name", b"nct6798\n", false);
    file(&mut root, "/sys/class/hwmon/hwmon0/pwm1", b"128\n", true);
    file(&mut root, "/sys/class/hwmon/hwmon0/pwm1_enable", b"2\n", true);
    assert_eq!(drive_duty(&mut root, "/sys/class/hwmon/hwmon0/pwm1", 128), Ok(false));
    assert_eq!(root.read("/sys/class/hwmon/hwmon0/pwm1_enable").as_deref(), Some("1"));
    assert_eq!(drive_duty(&mut root, "/sys/class/hwmon/hwmon0/pwm1", 200), Ok(true));
    assert_eq!(root.read_u32("/sys/class/hwmon/hwmon0/pwm1"), Some(200));
    assert_eq!(root.journal().len(), 2);
    let out = emergency_release(&mut root);
    assert_eq!(out, vec![("/sys/class/hwmon/hwmon0/pwm1_enable".to_string(), Ok(()))]);
    assert_eq!(root.read("/sys/class/hwmon/hwmon0/pwm1_enable").as_deref(), Some("2"));
    assert!(emergency_release(&mut root).is_empty());
    assert_eq!(hand_back(&mut root, "/sys/class/hwmon/hwmon0/pwm1"), Ok(()));
}

#[test]
fn the_palette_is_the_one_the_other_raven_applications_use() {
    for colour in [
        "@define-color window_bg_color #16161f;",
        "@define-color sidebar_bg_color #141420;",
        "@define-color borders #2a2a3a;",
        "window.raven.glass { background-color: alpha(#16161f, 0.72); }",
    ] {
        assert!(raven_controls::theme::BASE_CSS.contains(colour), "missing: {colour}");
    }
}

#[test]
fn glass_is_alpha_only_and_never_asks_gtk_to_blur() {
    assert!(!raven_controls::theme::BASE_CSS.contains("blur("));
    assert!(!raven_controls::theme::LIGHT_CSS.contains("blur("));
}

#[test]
fn an_accent_that_is_not_a_colour_never_reaches_the_stylesheet() {
    let mut a = Appearance::default();
    a.accent = "#fff; } * { background: red".into();
    let css = raven_controls::theme::override_css(&a);
    assert!(css.starts_with("@define-color accent_bg_color #7AA2F7;\n@define-color accent_color #7AA2F7;\n"));
    assert!(!css.contains("background: red"));
    a.accent = "#F7768E".into();
    a.theme_mode = ThemeMode::Light;
    let css = raven_controls::theme::override_css(&a);
    assert!(css.contains("accent_color #F7768E;"));
    assert!(css.ends_with(raven_controls::theme::LIGHT_CSS));
}

#[test]
fn the_default_root_is_the_live_machine() {
    let root = Root::default();
    assert!(root.is_live());
    assert_eq!(root.base(), "/");
    assert_eq!(root.path("/sys/class/leds"), "/sys/class/leds");
}

#[test]
fn the_udev_rule_opens_the_keyboard_light_and_no_fan() {
    let rule = raven_controls::backlight::leds::UDEV_RULE;
    assert!(rule.contains("KERNEL==\"*kbd_backlight\""), "{rule}");
    assert!(rule.contains("chgrp video /sys/class/leds/%k/brightness"), "{rule}");
    assert!(!rule.contains("hwmon") && !rule.contains("pwm"), "{rule}");
}

#[test]
fn carrying_out_a_journal_stops_at_the_first_refusal() {
    let journal = vec![
        ("/sys/class/hwmon/hwmon0/pwm1_enable".to_string(), "1".to_string()),
        ("/sys/class/hwmon/hwmon0/pwm1".to_string(), "128".to_string()),
    ];
    assert_eq!(carry_step(&journal, 0, Ok(Some("1".into()))), Ok(Some(1)));
    assert_eq!(carry_step(&journal, 1, Ok(Some("128".into()))), Ok(None));
    // Firmware kept its own mode: the duty is never written.
    assert_eq!(
        carry_step(&journal, 0, Ok(Some("5".into()))),
        Err("/sys/class/hwmon/hwmon0/pwm1_enable: wrote 1, firmware kept 5. The embedded controller is refusing to hand over this channel.".to_string())
    );
    assert_eq!(
        carry_step(&journal, 0, Err("Permission denied (os error 13)".into())),
        Err("/sys/class/hwmon/hwmon0/pwm1_enable: Permission denied (os error 13)".to_string())
    );
    // Attributes that do not read back a number are taken at their word.
    assert_eq!(write_outcome("/x/trigger", "none", Ok(Some("[none] timer".into()))), Ok(()));
    assert_eq!(write_outcome("/x/brightness", "3", Ok(None)), Ok(()));
}

#[test]
fn a_capture_copies_only_what_it_lists() {
    assert_eq!(
        trees(),
        vec![
            "/sys/class/leds",
            "/sys/class/hwmon",
            "/sys/class/thermal",
            "/sys/class/platform-profile",
            "/sys/firmware/acpi"
        ]
    );
    assert_eq!(files().len(), 7);
    assert!(files().contains(&"/proc/acpi/ibm/fan"));
    assert!(!files().iter().any(|f| f.contains("serial") || f.contains("uuid")));
    assert_eq!(platform_attrs()[0], "throttle_thermal_policy");
}
