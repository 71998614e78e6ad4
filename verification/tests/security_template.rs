use promethee::config::SecEditConfig;
use promethee::lgpo::Action;
use promethee::raw::RawMethod;
use promethee::secedit::{
    format_scope_value_exec, get_secedit, parse_scope_value, registry_action_to_value, set_secedit_field,
    value_to_registry_action, writable_scope_value_exec, ScopeValue, SecEdit,
};

fn config_with_sections() -> SecEditConfig {
    let mut c = SecEditConfig::new();
    c.set("System Access", "MinimumPasswordLength", "8");
    c.set("Privilege Rights", "SeDebugPrivilege", "*S-1-5-32-544");
    c.set("Registry Values", "MACHINE\\Key\\Value", "4,1");
    c
}

#[test]
fn registry_values_are_read() {
    assert!(matches!(value_to_registry_action("4,1").unwrap(), Action::Dword(1)));
    match value_to_registry_action("1,\"hello\"").unwrap() {
        Action::Sz(s) => assert_eq!(s, "hello"),
        _ => panic!("expected a string"),
    }
    match value_to_registry_action("3,258").unwrap() {
        Action::Binary(b) => assert_eq!(b, vec![2u8, 1, 0, 0]),
        _ => panic!("expected binary"),
    }
    match value_to_registry_action("7,a,\"b,c\",d").unwrap() {
        Action::MultiSz(v) => assert_eq!(v, vec!["a".to_string(), "b,c".to_string(), "d".to_string()]),
        _ => panic!("expected a multi-string"),
    }
    assert!(matches!(value_to_registry_action("-NODATA-").unwrap(), Action::Delete));
    assert_eq!(value_to_registry_action("nothing").unwrap_err(), "Invalid registry action format: nothing");
    assert_eq!(value_to_registry_action("9,1").unwrap_err(), "Unknown registry action type: 9");
    assert_eq!(
        value_to_registry_action("4,x").unwrap_err(),
        "Failed to parse dword value: invalid digit found in string"
    );
}

#[test]
fn registry_values_are_written() {
    assert_eq!(registry_action_to_value(&Action::Dword(5)).unwrap(), "4,5");
    assert_eq!(registry_action_to_value(&Action::Sz("x".to_string())).unwrap(), "1,\"x\"");
    assert_eq!(registry_action_to_value(&Action::Binary(vec![2, 1, 0, 0])).unwrap(), "3,258");
    assert_eq!(
        registry_action_to_value(&Action::MultiSz(vec!["a".to_string(), "b,c".to_string(), "".to_string()]))
            .unwrap(),
        "7,a,\"b,c\",\" \""
    );
    assert_eq!(registry_action_to_value(&Action::Delete).unwrap(), "-NODATA-");
    assert_eq!(registry_action_to_value(&Action::Clear).unwrap_err(), "Unsupported action type");
}

#[test]
fn written_registry_values_read_back() {
    for a in [
        Action::Dword(77),
        Action::Sz("some text".to_string()),
        Action::Binary(vec![1, 2, 3, 4]),
        Action::MultiSz(vec!["x".to_string(), "y\"z".to_string()]),
    ] {
        let text = registry_action_to_value(&a).unwrap();
        let back = value_to_registry_action(&text).unwrap();
        assert!(back.same(&a));
    }
}

#[test]
fn scope_values_are_read_and_written() {
    match parse_scope_value("privilege_rights:*S-1-1-0,*S-1-5-32-544").unwrap() {
        ScopeValue::PrivilegeRights(ids) => assert_eq!(ids, vec!["*S-1-1-0".to_string(), "*S-1-5-32-544".to_string()]),
        _ => panic!("expected privilege rights"),
    }
    assert_eq!(
        format_scope_value_exec(&ScopeValue::PrivilegeRights(vec!["b".to_string(), "a".to_string()])),
        "privilege_rights:a,b"
    );
    assert_eq!(
        format_scope_value_exec(&ScopeValue::RegistryValues(Action::Dword(3))),
        "registry_values:DWORD:3"
    );
    assert_eq!(parse_scope_value("other:1").unwrap_err(), "Invalid scope line: other:1");
}

#[test]
fn a_written_field_reads_back() {
    let mut c = config_with_sections();
    let s = SecEdit {
        field: "MinimumPasswordLength".to_string(),
        scope_value: ScopeValue::SystemAccess("14".to_string()),
    };
    set_secedit_field(&mut c, &s).unwrap();
    assert_eq!(c.get("System Access", "MinimumPasswordLength").unwrap(), "14");
    let back = get_secedit(&c, &s).unwrap();
    match back.scope_value {
        ScopeValue::SystemAccess(v) => assert_eq!(v, "14"),
        _ => panic!("expected system access"),
    }
    let r = SecEdit {
        field: "MACHINE\\Key\\Value".to_string(),
        scope_value: ScopeValue::RegistryValues(Action::Dword(0)),
    };
    set_secedit_field(&mut c, &r).unwrap();
    assert_eq!(c.get("Registry Values", "MACHINE\\Key\\Value").unwrap(), "4,0");
}

#[test]
fn nodata_removes_the_field() {
    let mut c = config_with_sections();
    let s = SecEdit {
        field: "MACHINE\\Key\\Value".to_string(),
        scope_value: ScopeValue::RegistryValues(Action::Delete),
    };
    set_secedit_field(&mut c, &s).unwrap();
    assert!(c.get("Registry Values", "MACHINE\\Key\\Value").is_none());
    assert_eq!(
        get_secedit(&c, &s).unwrap_err(),
        "Field 'MACHINE\\Key\\Value' not found in section 'Registry Values'"
    );
}

#[test]
fn a_missing_field_is_an_error() {
    let c = config_with_sections();
    let s = SecEdit { field: "Absent".to_string(), scope_value: ScopeValue::SystemAccess("1".to_string()) };
    assert_eq!(get_secedit(&c, &s).unwrap_err(), "Field 'Absent' not found in section 'System Access'");
    let empty = SecEditConfig::new();
    let p = SecEdit { field: "SeDebugPrivilege".to_string(), scope_value: ScopeValue::PrivilegeRights(vec![]) };
    assert_eq!(
        get_secedit(&empty, &p).unwrap_err(),
        "Field 'SeDebugPrivilege' not found in section 'Privilege Rights'"
    );
}

#[test]
fn canonical_values_read_and_write_back() {
    for v in ["-NODATA-", "4,123", "4,0", "3,258", "1,\"hi there\"", "1,\"\"", "7,\" \"", "7,a,\"b,c\",d", "7,x,\" \""] {
        let a = value_to_registry_action(v).unwrap();
        assert_eq!(registry_action_to_value(&a).unwrap(), v);
    }
}

#[test]
fn a_quoted_space_is_an_empty_line() {
    match value_to_registry_action("7,\" \"").unwrap() {
        Action::MultiSz(v) => assert_eq!(v, vec![String::new()]),
        _ => panic!("expected a multi-string"),
    }
    match value_to_registry_action("7,a, ,b").unwrap() {
        Action::MultiSz(v) => assert_eq!(v, vec!["a".to_string(), "".to_string(), "b".to_string()]),
        _ => panic!("expected a multi-string"),
    }
    let lines = Action::MultiSz(vec!["a".to_string(), String::new()]);
    let text = registry_action_to_value(&lines).unwrap();
    assert_eq!(text, "7,a,\" \"");
    assert!(value_to_registry_action(&text).unwrap().same(&lines));
}

#[test]
fn a_missing_section_is_an_error() {
    let mut c = SecEditConfig::new();
    let s = SecEdit { field: "F".to_string(), scope_value: ScopeValue::SystemAccess("1".to_string()) };
    assert_eq!(set_secedit_field(&mut c, &s).unwrap_err(), "Section 'System Access' not found");
}

#[test]
fn secedit_raw_form_round_trips() {
    let s = SecEdit {
        field: "SeDebugPrivilege".to_string(),
        scope_value: ScopeValue::PrivilegeRights(vec!["*S-1-5-32-544".to_string()]),
    };
    let raw = s.to_raw(false);
    assert_eq!(raw.method, "secedit");
    assert_eq!(raw.scope, "privilege_rights");
    assert_eq!(raw.action, "*S-1-5-32-544");
    let back = SecEdit::from_raw(raw).unwrap();
    assert_eq!(back.field, "SeDebugPrivilege");
    let bad = RawMethod {
        method: "secedit".to_string(),
        target: "x".to_string(),
        option1: String::new(),
        option2: String::new(),
        scope: "nowhere".to_string(),
        action: "1".to_string(),
    };
    assert_eq!(
        SecEdit::from_raw(bad).unwrap_err(),
        "Failed to parse SecEdit scope_value: Invalid scope line: nowhere:1"
    );
}

#[test]
fn config_lists_its_sections_in_order() {
    let c = config_with_sections();
    assert_eq!(
        c.section_names(),
        vec!["System Access".to_string(), "Privilege Rights".to_string(), "Registry Values".to_string()]
    );
}

#[test]
fn secedit_settings_of_each_scope_read_back() {
    let rights = SecEdit {
        field: "SeBackupPrivilege".to_string(),
        scope_value: ScopeValue::PrivilegeRights(vec!["*S-1-5-32-544".to_string(), "*S-1-5-32-551".to_string()]),
    };
    let back = SecEdit::from_raw(rights.to_raw(false)).unwrap();
    assert!(matches!(back.scope_value, ScopeValue::PrivilegeRights(ref ids) if ids.len() == 2 && ids[1] == "*S-1-5-32-551"));
    let access = SecEdit {
        field: "MinimumPasswordAge".to_string(),
        scope_value: ScopeValue::SystemAccess("1".to_string()),
    };
    let back = SecEdit::from_raw(access.to_raw(false)).unwrap();
    assert!(matches!(back.scope_value, ScopeValue::SystemAccess(ref v) if v == "1"));
    let registry = SecEdit {
        field: "MACHINE\\Software\\X".to_string(),
        scope_value: ScopeValue::RegistryValues(Action::Dword(4)),
    };
    let raw = registry.to_raw(false);
    assert_eq!(raw.action, "DWORD:4");
    let back = SecEdit::from_raw(raw).unwrap();
    assert!(matches!(back.scope_value, ScopeValue::RegistryValues(Action::Dword(4))));
    let unsorted = SecEdit {
        field: "SeBackupPrivilege".to_string(),
        scope_value: ScopeValue::PrivilegeRights(vec!["b".to_string(), "a".to_string()]),
    };
    assert_eq!(unsorted.to_raw(false).action, "a,b");
}

#[test]
fn only_four_byte_binary_values_are_written() {
    assert!(writable_scope_value_exec(&ScopeValue::RegistryValues(Action::Binary(vec![1, 0, 0, 0]))));
    assert!(!writable_scope_value_exec(&ScopeValue::RegistryValues(Action::Binary(vec![1, 0]))));
    assert!(writable_scope_value_exec(&ScopeValue::SystemAccess("1".to_string())));
}
