use promethee::config::SecEditConfig;
use promethee::raw::RawMethod;
use promethee::service::{
    get_service_current_action, get_start_value_from_secedit, map_start_value_to_action, parse_secedit_dword,
    set_service_action, Action, Service,
};

#[test]
fn dword_entries_are_read() {
    assert_eq!(parse_secedit_dword("4,2").unwrap(), 2);
    assert_eq!(parse_secedit_dword("4,2,9").unwrap(), 2);
    assert_eq!(parse_secedit_dword("4").unwrap_err(), "Empty value");
    assert_eq!(parse_secedit_dword("4,x").unwrap_err(), "Invalid DWORD format");
}

#[test]
fn start_values_map_to_actions() {
    assert_eq!(map_start_value_to_action(0, "s").unwrap(), Action::Boot);
    assert_eq!(map_start_value_to_action(4, "s").unwrap(), Action::Disabled);
    assert_eq!(map_start_value_to_action(7, "Spooler").unwrap_err(), "Invalid start value for service Spooler: 7");
}

#[test]
fn a_recorded_action_is_read_back() {
    let mut c = SecEditConfig::new();
    let s = Service { name: "Spooler".to_string(), action: Action::Manual };
    set_service_action(&mut c, &s);
    assert_eq!(
        c.get("Registry Values", "MACHINE\\System\\CurrentControlSet\\Services\\Spooler\\Start").unwrap(),
        "4,3"
    );
    assert_eq!(get_start_value_from_secedit(&c, "Spooler").unwrap(), 3);
    assert_eq!(get_service_current_action(&c, "Spooler", 4).unwrap(), Action::Manual);
}

#[test]
fn the_registry_counts_only_without_a_template_value() {
    let c = SecEditConfig::new();
    assert_eq!(
        get_start_value_from_secedit(&c, "Spooler").unwrap_err(),
        "Start value not found in SecEdit config"
    );
    assert_eq!(get_service_current_action(&c, "Spooler", 2).unwrap(), Action::Automatic);
}

#[test]
fn service_raw_form_round_trips() {
    let s = Service { name: "W32Time".to_string(), action: Action::Disabled };
    let raw = s.to_raw(false);
    assert_eq!(raw.action, "disabled");
    let back = Service::from_raw(raw).unwrap();
    assert_eq!(back.action, Action::Disabled);
    let bad = RawMethod {
        method: "service".to_string(),
        target: "x".to_string(),
        option1: String::new(),
        option2: String::new(),
        scope: String::new(),
        action: "off".to_string(),
    };
    assert_eq!(
        Service::from_raw(bad).unwrap_err(),
        "Failed to deserialize action: unknown variant `off`, expected one of `boot`, `system`, `automatic`, `manual`, `disabled`"
    );
}
