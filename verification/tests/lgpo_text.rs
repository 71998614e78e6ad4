use promethee::lgpo::{
    format_action_exec, format_configuration_exec, parse_action, parse_configuration, parse_number,
    parse_qword_number, serialize_entries, unescape_string, Action, Configuration, Deserializer,
    LocalGroupPolicyObject,
};

fn lines(text: &str) -> Vec<String> {
    text.lines().map(|l| l.to_string()).collect()
}

#[test]
fn parse_number_reads_decimal_and_hex() {
    assert_eq!(parse_number("42").unwrap(), 42);
    assert_eq!(parse_number("0x1000").unwrap(), 4096);
    assert!(parse_number("zz").is_err());
    assert!(parse_number("").is_err());
    assert_eq!(parse_number("0xff").unwrap(), 255);
    assert_eq!(parse_number("0xFF").unwrap(), 255);
    assert_eq!(parse_number(&format!("0x{:x}", u64::MAX)).unwrap(), u64::MAX);
    assert_eq!(parse_number(&format!("0x{:X}", 0xdead_beefu64)).unwrap(), 0xdead_beef);
    assert!(parse_number("0x").is_err());
    assert!(parse_number("0X10").is_err());
    assert!(parse_number("-1").is_err());
    assert!(parse_number("18446744073709551616").is_err());
}

#[test]
fn parse_qword_number_reads_wide_values() {
    assert_eq!(parse_qword_number("18446744073709551616").unwrap(), 18446744073709551616u128);
    assert_eq!(parse_qword_number("0xff").unwrap(), 255);
    assert_eq!(
        parse_qword_number("0xffffffffffffffffffffffffffffffff").unwrap(),
        u128::MAX
    );
    assert!(parse_qword_number("0xg").is_err());
    assert!(parse_qword_number("").is_err());
}

#[test]
fn unescape_string_keeps_plain_text() {
    assert_eq!(unescape_string("Authorized users only!"), "Authorized users only!");
}

#[test]
fn configurations_are_read_case_insensitively() {
    assert!(matches!(parse_configuration("computer").unwrap(), Configuration::Computer));
    assert!(matches!(parse_configuration("User").unwrap(), Configuration::User));
    assert!(matches!(
        parse_configuration("USER:ADMINISTRATORS").unwrap(),
        Configuration::UserAdministrators
    ));
    assert!(matches!(
        parse_configuration("User:Administrators").unwrap(),
        Configuration::UserAdministrators
    ));
    assert!(matches!(
        parse_configuration("user:non-administrators").unwrap(),
        Configuration::UserNonAdministrators
    ));
    match parse_configuration("User:Alice").unwrap() {
        Configuration::UserNamed(n) => assert_eq!(n, "Alice"),
        _ => panic!("expected a named user"),
    }
    assert_eq!(
        parse_configuration("Machine").unwrap_err(),
        "Invalid configuration line: Machine"
    );
}

#[test]
fn configurations_are_written() {
    assert_eq!(format_configuration_exec(&Configuration::Computer), "Computer");
    assert_eq!(format_configuration_exec(&Configuration::UserNonAdministrators), "User:Non-Administrators");
    assert_eq!(format_configuration_exec(&Configuration::UserNamed("bob".to_string())), "User:bob");
}

#[test]
fn actions_are_read() {
    assert!(matches!(parse_action("DWORD:1").unwrap(), Action::Dword(1)));
    assert!(matches!(parse_action("dword:0x10").unwrap(), Action::Dword(16)));
    assert!(matches!(parse_action("QWORD:5").unwrap(), Action::Qword(5)));
    assert!(matches!(parse_action("DELETE").unwrap(), Action::Delete));
    assert!(matches!(parse_action("CLEAR").unwrap(), Action::Clear));
    match parse_action("SZ:hello").unwrap() {
        Action::Sz(s) => assert_eq!(s, "hello"),
        _ => panic!("expected SZ"),
    }
    match parse_action("MULTISZ:One\\0Two").unwrap() {
        Action::MultiSz(v) => assert_eq!(v, vec!["One".to_string(), "Two".to_string()]),
        _ => panic!("expected MULTISZ"),
    }
    match parse_action("BINARY:00,ff,1").unwrap() {
        Action::Binary(b) => assert_eq!(b, vec![0u8, 255, 1]),
        _ => panic!("expected BINARY"),
    }
    assert_eq!(parse_action("BINARY:zz").unwrap_err(), "Invalid binary data in action: BINARY:zz");
    assert_eq!(parse_action("FOO:1").unwrap_err(), "Invalid action line: FOO:1");
}

#[test]
fn actions_are_written() {
    assert_eq!(format_action_exec(&Action::Dword(7)), "DWORD:7");
    assert_eq!(format_action_exec(&Action::Binary(vec![0, 255, 16])), "BINARY:00,ff,10");
    assert_eq!(
        format_action_exec(&Action::MultiSz(vec!["a".to_string(), "b".to_string()])),
        "MULTISZ:a\\0b"
    );
    assert_eq!(
        format_action_exec(&Action::DeleteKeys(vec!["k1".to_string(), "k2".to_string()])),
        "DELETEKEYS:k1;k2"
    );
    assert_eq!(format_action_exec(&Action::CreateKey), "CREATEKEY");
}

#[test]
fn plain_actions_read_back_from_their_line() {
    for a in [
        Action::MultiSz(vec!["one".to_string(), String::new(), "two words".to_string()]),
        Action::MultiSz(vec!["x".to_string(), String::new()]),
        Action::Sz("C:/path with spaces".to_string()),
        Action::ExSz(String::new()),
        Action::Qword(u128::MAX),
        Action::Binary(vec![1]),
        Action::DeleteKeys(vec![]),
        Action::Clear,
    ] {
        let line = format_action_exec(&a);
        assert!(parse_action(&line).unwrap().same(&a), "{}", line);
    }
}

fn entry(key: &str, name: &str, action: Action) -> LocalGroupPolicyObject {
    LocalGroupPolicyObject {
        configuration: Configuration::Computer,
        registry_key: key.to_string(),
        value_name: name.to_string(),
        action,
    }
}

#[test]
fn entries_are_serialized_with_blank_lines_between() {
    let es = vec![entry("K1", "V1", Action::Dword(1)), entry("K2", "V2", Action::Delete)];
    assert_eq!(
        serialize_entries(&es),
        "Computer\nK1\nV1\nDWORD:1\n\nComputer\nK2\nV2\nDELETE\n"
    );
}

#[test]
fn deserializer_skips_comments_and_blank_lines() {
    let text = "; LGPO text\n\nComputer\nSoftware\\Policies\\X\nValue\nDWORD:3\n\nUser\nKey\nName\nSZ:abc\n";
    let mut de = Deserializer::new(lines(text));
    let es = de.deserialize_seq().unwrap();
    assert_eq!(es.len(), 2);
    assert_eq!(es[0].registry_key, "Software\\Policies\\X");
    assert!(matches!(es[0].action, Action::Dword(3)));
    assert!(matches!(es[1].configuration, Configuration::User));
}

#[test]
fn deserializer_keeps_the_subkeys_of_deletekeys() {
    let mut de = Deserializer::new(lines("Computer\nSoftware\\K\na;b\nDELETEKEYS\n"));
    let es = de.deserialize_seq().unwrap();
    assert_eq!(es.len(), 1);
    assert_eq!(es[0].value_name, "a;b");
    match &es[0].action {
        Action::DeleteKeys(k) => assert_eq!(k, &vec!["a".to_string(), "b".to_string()]),
        _ => panic!("expected DELETEKEYS"),
    }
    let written = vec![entry("Software\\K", "x; y", Action::DeleteKeys(vec!["x".to_string(), "y".to_string()]))];
    let text = serialize_entries(&written);
    let back = Deserializer::new(lines(&text)).deserialize_seq().unwrap();
    assert!(back[0].same(&written[0]));
}

#[test]
fn deserializer_reports_a_truncated_entry() {
    let mut de = Deserializer::new(lines("Computer\nKey\n"));
    assert!(de.deserialize_seq().is_err());
}

#[test]
fn serialized_entries_read_back() {
    let es = vec![
        entry("K1", "V1", Action::Dword(1)),
        entry("K2", "V2", Action::Sz("text".to_string())),
        entry("K3", "*", Action::CreateKey),
    ];
    let text = serialize_entries(&es);
    let mut de = Deserializer::new(lines(&text));
    let back = de.deserialize_seq().unwrap();
    assert_eq!(back.len(), 3);
    for (a, b) in es.iter().zip(back.iter()) {
        assert!(a.same(b));
    }
}

#[test]
fn lgpo_execute_replaces_the_same_setting() {
    let mut list = vec![entry("K1", "V1", Action::Dword(1)), entry("K2", "V2", Action::Dword(2))];
    entry("K1", "V1", Action::Dword(9)).execute(&mut list);
    assert_eq!(list.len(), 2);
    assert!(matches!(list[0].action, Action::Dword(9)));
    entry("K3", "V3", Action::Dword(3)).execute(&mut list);
    assert_eq!(list.len(), 3);
}

#[test]
fn lgpo_raw_form_round_trips() {
    let e = entry("Software\\Key", "Name", Action::Dword(5));
    let raw = e.to_raw(false);
    assert_eq!(raw.method, "lgpo");
    assert_eq!(raw.scope, "Computer");
    assert_eq!(raw.action, "DWORD:5");
    let back = LocalGroupPolicyObject::from_raw(raw).unwrap();
    assert!(back.same(&e));
    let lower = e.to_raw(true);
    assert_eq!(lower.target, "software\\key");
    assert_eq!(lower.option1, "name");
}

#[test]
fn lgpo_applied_setting_reads_back() {
    let mut list = vec![entry("k1", "v1", Action::Dword(1)), entry("K2", "V2", Action::Dword(2))];
    let wanted = entry("K1", "V1", Action::Sz("on".to_string()));
    wanted.execute(&mut list);
    assert!(wanted.current_value(&list).same(&wanted.to_raw(false)));
    let other = entry("K2", "V2", Action::Dword(7));
    assert_eq!(other.current_value(&list).action, "DWORD:2");
    let absent = entry("K9", "V9", Action::Dword(7));
    assert_eq!(absent.current_value(&list).action, "DELETE");
}
