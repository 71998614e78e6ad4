use promethee::raw::{CsvRecord, RawMethod};
use promethee::rule::{log_level, rule_from_record, suggest_method, Args, LogLevel, Method, Mode, Rule, RuleTrait};
use promethee::config::SecEditConfig;
use promethee::lgpo::{Action as LgpoAction, Configuration, LocalGroupPolicyObject};
use promethee::service::{Action, Service};
use promethee::utils::{datetime_to_filetime, filetime_to_epoch};

fn record(method: &str, action: &str, tags: &str) -> CsvRecord {
    CsvRecord {
        id: "1.1".to_string(),
        name: "Spooler disabled".to_string(),
        category: "Services".to_string(),
        method: method.to_string(),
        target: "Spooler".to_string(),
        option1: String::new(),
        option2: String::new(),
        scope: String::new(),
        action: action.to_string(),
        tags: tags.to_string(),
    }
}

fn service_rule(action: Action) -> Rule {
    Rule {
        id: "1.1".to_string(),
        name: "Spooler disabled".to_string(),
        category: "Services".to_string(),
        method: Method::Service(Service { name: "Spooler".to_string(), action }),
        tags: vec!["cis".to_string(), "l1".to_string()],
    }
}

#[test]
fn records_become_rules() {
    let r = rule_from_record(record("service", "disabled", "cis, l1")).unwrap();
    assert_eq!(r.tags, vec!["cis".to_string(), "l1".to_string()]);
    assert!(matches!(r.method, Method::Service(ref s) if s.action == Action::Disabled));
    assert_eq!(
        rule_from_record(record("servce", "disabled", "")).unwrap_err(),
        "Invalid method 'servce' in record '1.1'."
    );
}

#[test]
fn an_unknown_method_gets_a_suggestion() {
    assert_eq!(suggest_method("servce"), "service");
    assert_eq!(suggest_method("firewal"), "firewall");
    assert_eq!(suggest_method("local_usr"), "local_user");
}

#[test]
fn rules_are_written_to_csv() {
    let c = service_rule(Action::Disabled).to_csv();
    assert_eq!(c.method, "service");
    assert_eq!(c.action, "disabled");
    assert_eq!(c.tags, "cis,l1");
}

#[test]
fn rules_compare_and_show_their_differences() {
    let a = service_rule(Action::Disabled);
    let b = service_rule(Action::Disabled);
    let c = service_rule(Action::Manual);
    assert!(a.same(&b));
    assert!(!a.same(&c));
    assert_eq!(Rule::pretty_diff(&a, &b), "No differences");
    assert_eq!(Rule::pretty_diff(&a, &c), "action: expected disabled found manual");
    let mut d = service_rule(Action::Disabled);
    d.tags = vec!["x".to_string()];
    assert_eq!(Rule::pretty_diff(&a, &d), "tags: expected [\"cis\", \"l1\"] found [\"x\"]");
    assert_eq!(a.pretty_display(), "1.1 Spooler disabled");
}

#[test]
fn backup_reads_the_current_value() {
    let a = service_rule(Action::Disabled);
    let current = RawMethod {
        method: "service".to_string(),
        target: "Spooler".to_string(),
        option1: String::new(),
        option2: String::new(),
        scope: String::new(),
        action: "automatic".to_string(),
    };
    let b = a.backup(current).unwrap();
    assert!(matches!(b.method, Method::Service(ref s) if s.action == Action::Automatic));
    let mut odd = a.method.to_raw(false);
    odd.method = "nothing".to_string();
    assert_eq!(a.backup(odd).unwrap_err(), "Invalid method 'nothing'");
}

#[test]
fn args_give_verbosity_and_config() {
    let args = Args {
        mode: Mode::Audit { config: "rules.csv".to_string(), report: false, report_file: None },
        verbose: 2,
        quiet: 0,
        log: false,
        log_file: None,
    };
    assert_eq!(args.verbosity(), 2);
    assert_eq!(args.config_location(), "rules.csv");
    let quiet = Args { mode: Mode::Apply { config: "a.csv".to_string(), skip_restore_point: true }, verbose: 0, quiet: 3, log: false, log_file: None };
    assert_eq!(quiet.verbosity(), -3);
    assert!(quiet.verbosity_fits_exec());
    let wide = Args { mode: Mode::Apply { config: "a.csv".to_string(), skip_restore_point: true }, verbose: 127, quiet: 128, log: false, log_file: None };
    assert!(!wide.verbosity_fits_exec());
}

#[test]
fn filetimes_convert() {
    assert_eq!(filetime_to_epoch(116_444_736_000_000_000), 0);
    assert_eq!(filetime_to_epoch(133_444_736_009_999_999), 1_700_000_000);
    assert_eq!(datetime_to_filetime(1_700_000_000, 1_234_567), 133_444_736_000_012_345);
    let ft = datetime_to_filetime(42, 999_999_999);
    assert_eq!(filetime_to_epoch(ft as u64), 42);
}

#[test]
fn verbosity_picks_the_log_level() {
    assert_eq!(log_level(-5), LogLevel::Off);
    assert_eq!(log_level(-3), LogLevel::Off);
    assert_eq!(log_level(-2), LogLevel::Error);
    assert_eq!(log_level(-1), LogLevel::Warn);
    assert_eq!(log_level(0), LogLevel::Normal);
    assert_eq!(log_level(1), LogLevel::Debug);
    assert_eq!(log_level(2), LogLevel::Trace);
    assert_eq!(log_level(i8::MAX), LogLevel::Trace);
}

#[test]
fn an_applied_rule_is_found_compliant() {
    let rule = service_rule(Action::Disabled);
    let mut config = SecEditConfig::new();
    if let Method::Service(s) = &rule.method {
        s.execute(&mut config);
        let current = s.current_value(&config, 2).unwrap();
        let found = rule.backup(current).unwrap();
        assert!(found.same(&rule));
        assert_eq!(Rule::pretty_diff(&rule, &found), "No differences");
    }
    let setting = LocalGroupPolicyObject {
        configuration: Configuration::Computer,
        registry_key: "Software\\Policies\\X".to_string(),
        value_name: "Enabled".to_string(),
        action: LgpoAction::Dword(1),
    };
    let lgpo_rule = Rule {
        id: "2.1".to_string(),
        name: "X enabled".to_string(),
        category: "Policies".to_string(),
        method: Method::Lgpo(setting.copy()),
        tags: vec!["l1".to_string()],
    };
    let mut lgpos = vec![LocalGroupPolicyObject {
        configuration: Configuration::Computer,
        registry_key: "software\\policies\\x".to_string(),
        value_name: "enabled".to_string(),
        action: LgpoAction::Dword(0),
    }];
    let before = lgpo_rule.backup(setting.current_value(&lgpos)).unwrap();
    assert!(!before.same(&lgpo_rule));
    setting.execute(&mut lgpos);
    let after = lgpo_rule.backup(setting.current_value(&lgpos)).unwrap();
    assert!(after.same(&lgpo_rule));
}
