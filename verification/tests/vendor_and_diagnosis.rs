use raven_controls::diagnose::{availability, Availability, Suggestion};
use raven_controls::fan::vendor::{attrs, thinkpad_command, thinkpad_label, thinkpad_level, thinkpad_modes};

const SAMPLE: &str = "status:\t\tenabled\nspeed:\t\t2500\nlevel:\t\tauto\n";

const CONFIG: &str = "CONFIG_ASUS_NB_WMI=m\n# CONFIG_SENSORS_ASUS_EC is not set\nCONFIG_HID_ASUS=m\n";

#[test]
fn the_thinkpad_procfs_format_parses() {
    assert_eq!(thinkpad_level(SAMPLE).as_deref(), Some("auto"));
    assert_eq!(
        thinkpad_level("status:\t\tenabled\nspeed:\t\t0\nlevel:\t\t3\n").as_deref(),
        Some("3")
    );
}

#[test]
fn thinkpad_levels_round_trip_to_the_commands_the_driver_takes() {
    assert_eq!(thinkpad_command("Automatic").as_deref(), Some("level auto"));
    assert_eq!(thinkpad_command("Level 7").as_deref(), Some("level 7"));
    assert_eq!(thinkpad_command("Full speed").as_deref(), Some("level disengaged"));
    assert_eq!(thinkpad_command("Level 8"), None);
    assert_eq!(thinkpad_command("Turbo"), None);
}

#[test]
fn a_reported_level_maps_back_to_a_menu_entry() {
    for level in ["auto", "0", "7", "full-speed", "disengaged"] {
        let label = thinkpad_label(level);
        assert!(
            thinkpad_modes().contains(&label),
            "{level} produced {label}, which is not on the menu"
        );
    }
}

#[test]
fn vendor_modes_are_listed_coolest_first() {
    for attr in attrs() {
        let first = attr.modes[0].1;
        assert!(first == "Silent" || first == "Quiet", "{} leads with {first}", attr.file);
    }
}

#[test]
fn the_thinkpad_menu_is_automatic_eight_levels_and_full_speed() {
    let m = thinkpad_modes();
    assert_eq!(m.len(), 10);
    assert_eq!(m[0], "Automatic");
    assert_eq!(m[1], "Level 0");
    assert_eq!(m[8], "Level 7");
    assert_eq!(m[9], "Full speed");
    assert_eq!(thinkpad_label("9"), "Automatic");
    assert_eq!(thinkpad_label("garbage"), "Automatic");
    assert_eq!(thinkpad_label("4"), "Level 4");
}

#[test]
fn a_level_line_needs_its_colon() {
    assert_eq!(thinkpad_level("level auto\n"), None);
    assert_eq!(thinkpad_level("speed: 1\n  level :  full-speed  \nlevel: 3\n").as_deref(), Some("full-speed"));
}

#[test]
fn a_built_but_unloaded_module_is_told_apart_from_one_never_built() {
    assert_eq!(availability(Some(CONFIG), "CONFIG_ASUS_NB_WMI", false), Availability::NotLoaded);
    assert_eq!(availability(Some(CONFIG), "CONFIG_SENSORS_ASUS_EC", false), Availability::NotBuilt);
}

#[test]
fn a_loaded_module_is_reported_as_the_end_of_the_road() {
    assert_eq!(availability(Some(CONFIG), "CONFIG_ASUS_NB_WMI", true), Availability::Loaded);
}

#[test]
fn an_unreadable_config_is_admitted_rather_than_guessed() {
    assert_eq!(availability(None, "CONFIG_ASUS_NB_WMI", false), Availability::Unknown);
}

#[test]
fn the_unloaded_case_prints_the_command_to_type() {
    let s = Suggestion {
        module: "asus_nb_wmi".into(),
        gives: "platform profile".into(),
        availability: Availability::NotLoaded,
        config: "CONFIG_ASUS_NB_WMI".into(),
    };
    assert!(s.line().contains("modprobe asus_nb_wmi"));
}

#[test]
fn a_config_symbol_is_not_matched_by_a_longer_one_that_contains_it() {
    let config = "# CONFIG_SENSORS_ASUS_WMI is not set\nCONFIG_ASUS_WMI=m\n";
    assert_eq!(availability(Some(config), "CONFIG_SENSORS_ASUS_WMI", false), Availability::NotBuilt);
    assert_eq!(availability(Some(config), "CONFIG_ASUS_WMI", false), Availability::NotLoaded);
}

#[test]
fn every_availability_has_its_own_sentence() {
    let mut s = Suggestion {
        module: "it87".into(),
        gives: "PWM fan control".into(),
        availability: Availability::NotBuilt,
        config: "CONFIG_SENSORS_IT87".into(),
    };
    assert_eq!(s.line(), "it87 would add PWM fan control, but this kernel was built without CONFIG_SENSORS_IT87.");
    s.availability = Availability::Loaded;
    assert_eq!(
        s.line(),
        "it87 is loaded and exposes nothing here, so this machine's firmware does not offer PWM fan control."
    );
    s.availability = Availability::Unknown;
    assert_eq!(
        s.line(),
        "it87 might add PWM fan control; this kernel's configuration is not readable, so try:\n    sudo modprobe it87"
    );
    s.availability = Availability::NotLoaded;
    assert_eq!(
        s.line(),
        "it87 would add PWM fan control — it is built for this kernel but not loaded:\n    sudo modprobe it87"
    );
}
