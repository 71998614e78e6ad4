use promethee::lgpo::{Action, Configuration, LocalGroupPolicyObject};
use promethee::safer::{
    convert_policies_to_lgpos, convertible_exec, create_missing_lgpo, get_missing_lgpo, is_safer_rule_lgpo, parse_lgpos,
    rules_from_settings, safer_minimal_registry_keys, try_parse_lgpos, update_safer, update_safer_with_keys,
    KeyedSetting, RuleType, SecurityLevel, SoftwareRestrictionPolicy, State, Target,
    UrlZones,
};

const BASE: &str = "Software\\Policies\\Microsoft\\Windows\\Safer\\CodeIdentifiers";

fn setting(key: &str, name: &str, action: Action) -> LocalGroupPolicyObject {
    LocalGroupPolicyObject {
        configuration: Configuration::Computer,
        registry_key: key.to_string(),
        value_name: name.to_string(),
        action,
    }
}

fn path_rule(path: &str) -> SoftwareRestrictionPolicy {
    SoftwareRestrictionPolicy {
        target: Target::Path(path.to_string()),
        security_level: SecurityLevel::Disallowed,
        rule_type: RuleType::Paths,
        description: Some("block temp".to_string()),
        last_modified: Some((1_700_000_000, 0)),
        lgpo_guid: Some("0cce9215-69ae-11d9-bed3-505054503030".to_string()),
        state: State::Exists,
    }
}

#[test]
fn rule_settings_are_recognized() {
    assert!(is_safer_rule_lgpo(&setting(&format!("{}\\0\\Paths\\{{x}}", BASE), "ItemData", Action::Clear)));
    assert!(!is_safer_rule_lgpo(&setting(BASE, "DefaultLevel", Action::Dword(0))));
    assert!(!is_safer_rule_lgpo(&setting("Software\\Other", "X", Action::Dword(0))));
}

#[test]
fn rules_are_read_from_their_settings() {
    let key = format!("{}\\0\\Paths\\{{0cce9215-69ae-11d9-bed3-505054503030}}", BASE);
    let lgpos = vec![
        setting(&key, "ItemData", Action::ExSz("%TEMP%\\*".to_string())),
        setting(&key, "Description", Action::Sz("[promethee] block temp".to_string())),
        setting(&key, "LastModified", Action::Qword(133_444_736_000_000_000)),
        setting(&key, "SaferFlags", Action::Dword(0)),
        setting(BASE, "DefaultLevel", Action::Dword(262144)),
    ];
    let rules = parse_lgpos(&lgpos).unwrap();
    assert_eq!(rules.len(), 1);
    let r = &rules[0];
    assert!(matches!(r.target, Target::Path(ref p) if p == "%TEMP%\\*"));
    assert_eq!(r.security_level, SecurityLevel::Disallowed);
    assert_eq!(r.description, Some("[promethee] block temp".to_string()));
    assert_eq!(r.last_modified, Some((1_700_000_000, 0)));
    assert_eq!(r.lgpo_guid, Some("0cce9215-69ae-11d9-bed3-505054503030".to_string()));
    let raw = r.to_raw(false);
    assert_eq!(raw.option2, "block temp");
    assert_eq!(raw.scope, "Paths");
}

#[test]
fn zone_rules_and_unknown_levels() {
    let zone = format!("{}\\131072\\UrlZones\\{{0cce9215-69ae-11d9-bed3-505054503031}}", BASE);
    let odd = format!("{}\\5\\Paths\\{{0cce9215-69ae-11d9-bed3-505054503032}}", BASE);
    let lgpos = vec![
        setting(&zone, "ItemData", Action::Dword(3)),
        setting(&odd, "ItemData", Action::ExSz("C:\\x".to_string())),
    ];
    let rules = parse_lgpos(&lgpos).unwrap();
    assert_eq!(rules.len(), 1);
    assert!(matches!(rules[0].target, Target::UrlZone(UrlZones::Internet)));
    assert_eq!(rules[0].security_level, SecurityLevel::BasicUser);
}

#[test]
fn rules_are_written_as_settings() {
    let out = convert_policies_to_lgpos(&vec![path_rule("C:\\Temp\\*")], &vec!["unused".to_string()], (0, 0));
    assert_eq!(out.len(), 4);
    let key = format!("{}\\0\\Paths\\{{0CCE9215-69AE-11D9-BED3-505054503030}}", BASE);
    assert_eq!(out[0].registry_key, key);
    assert!(matches!(out[0].action, Action::ExSz(ref p) if p == "C:\\Temp\\*"));
    assert!(matches!(out[1].action, Action::Sz(ref d) if d == "[promethee] block temp"));
    assert!(matches!(out[2].action, Action::Qword(133_444_736_000_000_000)));
    assert!(matches!(out[3].action, Action::Dword(0)));
}

#[test]
fn rules_that_should_not_exist_are_not_written() {
    let mut r = path_rule("C:\\x");
    r.state = State::NotExists;
    r.lgpo_guid = None;
    let out = convert_policies_to_lgpos(&vec![r], &vec!["11111111-2222-3333-4444-555555555555".to_string()], (0, 0));
    assert!(out.is_empty());
}

#[test]
fn minimal_settings_and_missing_ones() {
    let minimal = safer_minimal_registry_keys();
    assert_eq!(minimal.len(), 10);
    let have = vec![minimal[0].copy(), minimal[6].copy()];
    let missing = get_missing_lgpo(&have);
    assert_eq!(missing.len(), 8);
    let mut have = have;
    assert!(create_missing_lgpo(&mut have, missing).is_ok());
    assert_eq!(have.len(), 10);
    assert!(minimal.iter().all(|m| have.iter().any(|h| h.same(m))));
    assert!(get_missing_lgpo(&have).is_empty());
    let mut other = vec![setting(&minimal[6].registry_key, "DefaultLevel", Action::Dword(0))];
    create_missing_lgpo(&mut other, vec![minimal[6].copy()]).unwrap();
    assert_eq!(other.len(), 1);
    assert!(other[0].same(&minimal[6]));
}

#[test]
fn updating_replaces_old_rule_settings() {
    let old_key = format!("{}\\0\\Paths\\{{0cce9215-69ae-11d9-bed3-505054503039}}", BASE);
    let mut lgpos = vec![
        setting("Software\\Other", "X", Action::Dword(1)),
        setting(&old_key, "ItemData", Action::ExSz("C:\\old".to_string())),
        setting(&old_key, "SaferFlags", Action::Dword(0)),
    ];
    update_safer(&mut lgpos, &vec![path_rule("C:\\new")], &vec!["u".to_string()], (0, 0));
    assert_eq!(lgpos.len(), 1 + 1 + 10 + 4);
    assert_eq!(lgpos[0].registry_key, "Software\\Other");
    assert_eq!(lgpos[1].registry_key, old_key);
    assert!(matches!(lgpos[1].action, Action::Clear));
    assert_eq!(lgpos[1].value_name, "*");
    let minimal = safer_minimal_registry_keys();
    for (i, m) in minimal.iter().enumerate() {
        assert!(lgpos[2 + i].same(m));
    }
}

#[test]
fn updating_without_rules_clears_the_needed_settings() {
    let mut lgpos = vec![];
    update_safer(&mut lgpos, &vec![], &vec![], (0, 0));
    assert_eq!(lgpos.len(), 10);
    assert!(lgpos.iter().all(|l| matches!(l.action, Action::Clear) && l.value_name == "*"));
}

#[test]
fn applying_a_rule_updates_the_rules() {
    let mut rules = vec![path_rule("C:\\a")];
    let mut changed = path_rule("C:\\a");
    changed.security_level = SecurityLevel::Unrestricted;
    changed.execute(&mut rules);
    assert_eq!(rules.len(), 1);
    assert_eq!(rules[0].security_level, SecurityLevel::Unrestricted);
    path_rule("C:\\b").execute(&mut rules);
    assert_eq!(rules.len(), 2);
    let missing = path_rule("C:\\c");
    assert_eq!(missing.current_value(&rules).action, "not_exists");
    assert_eq!(changed.current_value(&rules).option1, "unrestricted");
}

#[test]
fn safer_raw_form_round_trips() {
    let r = path_rule("C:\\x");
    let back = SoftwareRestrictionPolicy::from_raw(r.to_raw(false)).unwrap();
    assert!(matches!(back.target, Target::Path(ref p) if p == "C:\\x"));
    assert_eq!(back.description, Some("block temp".to_string()));
    assert_eq!(back.last_modified, None);
    let mut bad = r.to_raw(false);
    bad.option1 = "maximal".to_string();
    assert!(SoftwareRestrictionPolicy::from_raw(bad).unwrap_err().starts_with("Invalid security level 'maximal': "));
}

#[test]
fn rules_with_an_unreadable_guid_are_refused_before_reading() {
    let bad = format!("{}\\0\\Paths\\{{12-34}}", BASE);
    let lgpos = vec![setting(&bad, "ItemData", Action::ExSz("C:\\x".to_string()))];
    assert!(try_parse_lgpos(&lgpos).is_none());
    let early = format!("{}\\0\\Paths\\{{0cce9215-69ae-11d9-bed3-505054503030}}", BASE);
    let lgpos = vec![setting(&early, "LastModified", Action::Qword(5))];
    assert!(try_parse_lgpos(&lgpos).is_none());
    let good = format!("{}\\0\\Paths\\{{0cce9215-69ae-11d9-bed3-505054503030}}", BASE);
    let lgpos = vec![setting(&good, "ItemData", Action::ExSz("C:\\x".to_string()))];
    let rules = try_parse_lgpos(&lgpos).unwrap().unwrap();
    assert_eq!(rules.len(), 1);
}

fn keyed(l: LocalGroupPolicyObject, key: Option<(&str, &str, &str)>, time: Option<(i64, u32)>) -> KeyedSetting {
    KeyedSetting {
        setting: l,
        key: key.map(|(a, b, c)| (a.to_string(), b.to_string(), c.to_string())),
        time,
    }
}

#[test]
fn rules_are_built_from_keyed_settings() {
    let guid = "{0cce9215-69ae-11d9-bed3-505054503030}";
    let settings = vec![
        keyed(setting("k", "ItemData", Action::Dword(3)), Some(("131072", "UrlZones", guid)), None),
        keyed(setting("k", "LastModified", Action::Qword(1)), Some(("131072", "UrlZones", guid)), Some((42, 0))),
        keyed(setting("k", "Description", Action::Sz("d".to_string())), Some(("131072", "UrlZones", guid)), None),
        keyed(setting("j", "ItemData", Action::ExSz("C:\\x".to_string())), Some(("7", "Paths", guid)), None),
        keyed(setting("i", "ItemData", Action::ExSz("C:\\y".to_string())), None, None),
    ];
    let rules = rules_from_settings(&settings).unwrap();
    assert_eq!(rules.len(), 1);
    assert!(matches!(rules[0].target, Target::UrlZone(UrlZones::Internet)));
    assert_eq!(rules[0].security_level, SecurityLevel::BasicUser);
    assert_eq!(rules[0].last_modified, Some((42, 0)));
    assert_eq!(rules[0].description, Some("d".to_string()));
    assert_eq!(rules[0].lgpo_guid, Some("0cce9215-69ae-11d9-bed3-505054503030".to_string()));
    let bad = vec![keyed(setting("k", "ItemData", Action::Dword(3)), Some(("99999999999", "Paths", guid)), None)];
    assert!(rules_from_settings(&bad).is_err());
}

#[test]
fn updating_with_found_keys_clears_those_keys() {
    let old_key = format!("{}\\0\\Paths\\{{0cce9215-69ae-11d9-bed3-505054503039}}", BASE);
    let mut lgpos = vec![
        setting(&old_key, "ItemData", Action::ExSz("C:\\old".to_string())),
        setting("Software\\Other", "X", Action::Dword(1)),
    ];
    let found = vec![Some((Configuration::Computer, "Cleared\\Key".to_string())), Some((Configuration::Computer, "Z".to_string()))];
    update_safer_with_keys(&mut lgpos, &found, &vec![], &vec![], (0, 0));
    assert_eq!(lgpos[0].registry_key, "Software\\Other");
    assert_eq!(lgpos[1].registry_key, "Cleared\\Key");
    assert!(matches!(lgpos[1].action, Action::Clear));
    assert_eq!(lgpos.len(), 2 + 10);
}

#[test]
fn a_written_rule_reads_back_from_its_keys() {
    let rule = path_rule("C:\\tmp\\*");
    let written = convert_policies_to_lgpos(&vec![rule.copy()], &vec![String::new()], (1_800_000_000, 5));
    let key = ("0", "Paths", "{0CCE9215-69AE-11D9-BED3-505054503030}");
    assert!(written.iter().all(|l| l.registry_key.ends_with(key.2)));
    let settings: Vec<KeyedSetting> =
        written.into_iter().map(|l| keyed(l, Some(key), Some((1_700_000_000, 0)))).collect();
    let back = rules_from_settings(&settings).unwrap();
    assert_eq!(back.len(), 1);
    assert!(back[0].to_raw(false).same(&rule.to_raw(false)));
    assert_eq!(back[0].last_modified, Some((1_700_000_000, 0)));
}

#[test]
fn written_rules_read_back_from_their_keys() {
    let a = path_rule("C:\\a\\*");
    let mut b = path_rule("");
    b.target = Target::UrlZone(UrlZones::TrustedSites);
    b.rule_type = RuleType::UrlZones;
    b.security_level = SecurityLevel::Unrestricted;
    b.description = None;
    b.lgpo_guid = None;
    let rules = vec![a.copy(), b.copy()];
    let fresh = vec![String::new(), "11111111-2222-3333-4444-555555555555".to_string()];
    let written = convert_policies_to_lgpos(&rules, &fresh, (1_800_000_000, 0));
    assert_eq!(written.len(), 4 + 3);
    let keys = [
        ("0", "Paths", "{0CCE9215-69AE-11D9-BED3-505054503030}"),
        ("262144", "UrlZones", "{11111111-2222-3333-4444-555555555555}"),
    ];
    let settings: Vec<KeyedSetting> = written
        .into_iter()
        .enumerate()
        .map(|(i, l)| {
            let k = if i < 4 { keys[0] } else { keys[1] };
            assert!(l.registry_key.ends_with(k.2));
            keyed(l, Some(k), Some((1_800_000_000, 0)))
        })
        .collect();
    let back = rules_from_settings(&settings).unwrap();
    assert_eq!(back.len(), 2);
    assert!(back[0].to_raw(false).same(&a.to_raw(false)));
    assert!(back[1].to_raw(false).same(&b.to_raw(false)));
}

#[test]
fn rules_are_convertible_with_a_guid_each_and_a_file_time() {
    let rules = vec![path_rule("C:\\a")];
    assert!(convertible_exec(&rules, &vec![String::new()], (0, 0)));
    assert!(!convertible_exec(&rules, &vec![], (0, 0)));
    let mut early = path_rule("C:\\a");
    early.last_modified = Some((-5, 0));
    assert!(!convertible_exec(&vec![early.copy()], &vec![String::new()], (0, 0)));
    early.state = State::NotExists;
    assert!(convertible_exec(&vec![early], &vec![String::new()], (0, 0)));
}
