use promethee::advanced_auditing::{
    from_audit_parameter, header_line, parameter_text_readable_exec, standard_headers, to_audit_parameter,
    AdvancedAuditing, AuditParameter,
    AuditStrategy,
};
use promethee::i18n::audit_parameters;

fn strategy(guid: &str) -> AuditStrategy {
    AuditStrategy {
        computer_name: "PC".to_string(),
        target: "System".to_string(),
        sub_category: "Logon".to_string(),
        guid: guid.to_string(),
        inclusion_parameter: None,
        exclusion_parameter: None,
        parameter_value: None,
    }
}

#[test]
fn setting_a_subcategory_finds_it_by_guid_in_any_case() {
    let mut v = vec![strategy("{AAA}"), strategy("{0CCE9215-69AE-11D9-BED3-505054503030}")];
    let a = AdvancedAuditing {
        guid: "{0cce9215-69ae-11d9-bed3-505054503030}".to_string(),
        value: AuditParameter::SuccessAndFailure,
    };
    a.execute(&mut v).unwrap();
    assert!(matches!(v[1].inclusion_parameter, Some(AuditParameter::SuccessAndFailure)));
    assert_eq!(v[1].parameter_value, Some(3));
    let raw = a.current_value(&v);
    assert_eq!(raw.target, "{0CCE9215-69AE-11D9-BED3-505054503030}");
    assert_eq!(raw.action, "success_and_failure");
}

#[test]
fn disabling_records_zero() {
    let mut v = vec![strategy("{abc}")];
    AdvancedAuditing { guid: "{ABC}".to_string(), value: AuditParameter::Disabled }.execute(&mut v).unwrap();
    assert_eq!(v[0].parameter_value, Some(0));
}

#[test]
fn an_unknown_guid_is_an_error_and_reads_disabled() {
    let mut v = vec![strategy("{abc}")];
    let a = AdvancedAuditing { guid: "{XYZ}".to_string(), value: AuditParameter::Success };
    let e = a.execute(&mut v).unwrap_err();
    assert!(e.starts_with("Audit strategy with GUID {xyz} not found"));
    let raw = a.current_value(&v);
    assert_eq!(raw.target, "{xyz}");
    assert_eq!(raw.action, "disabled");
}

#[test]
fn auditing_raw_form_lowercases_the_guid() {
    let a = AdvancedAuditing { guid: "{ABC}".to_string(), value: AuditParameter::Failure };
    assert_eq!(a.to_raw(true).target, "{abc}");
    assert_eq!(a.to_raw(false).target, "{ABC}");
    let back = AdvancedAuditing::from_raw(a.to_raw(false)).unwrap();
    assert_eq!(back.guid, "{abc}");
    assert_eq!(back.value, AuditParameter::Failure);
}

#[test]
fn french_cells_are_read_and_written() {
    assert_eq!(to_audit_parameter("fr-FR", "Réussite").unwrap(), Some(AuditParameter::Success));
    assert_eq!(to_audit_parameter("fr-FR", "  ").unwrap(), None);
    assert_eq!(to_audit_parameter("fr-FR", "failure").unwrap(), Some(AuditParameter::Failure));
    assert_eq!(to_audit_parameter("en-US", "Success").unwrap_err(), "Unsupported locale");
    assert_eq!(from_audit_parameter("fr-FR", Some(AuditParameter::NoAuditing)).unwrap(), "Pas d’audit");
    assert_eq!(from_audit_parameter("fr-FR", None).unwrap(), "");
    assert_eq!(from_audit_parameter("en-US", Some(AuditParameter::Success)).unwrap_err(), "Unsupported locale");
}

#[test]
fn a_written_cell_reads_back() {
    for p in [
        AuditParameter::Disabled,
        AuditParameter::NoAuditing,
        AuditParameter::Success,
        AuditParameter::Failure,
        AuditParameter::SuccessAndFailure,
    ] {
        let cell = from_audit_parameter("fr-FR", Some(p)).unwrap();
        assert_eq!(to_audit_parameter("fr-FR", &cell).unwrap(), Some(p));
    }
}

#[test]
fn headers_are_translated() {
    let hs = vec!["GUID de sous-catégorie".to_string(), "Other".to_string()];
    assert_eq!(standard_headers("fr-FR", &hs).unwrap(), vec!["guid".to_string(), "Other".to_string()]);
    assert_eq!(
        header_line("fr-FR").unwrap(),
        "Nom d’ordinateur,Cible de stratégie,Sous-catégorie,GUID de sous-catégorie,Paramètre d’inclusion,Paramètre d’exclusion,Valeur de paramètre"
    );
    assert!(header_line("de-DE").is_err());
    assert!(audit_parameters("fr-FR").is_some());
}

#[test]
fn only_unknown_settings_in_a_known_locale_are_unreadable() {
    assert!(parameter_text_readable_exec("fr-FR", "  "));
    assert!(parameter_text_readable_exec("en-US", "whatever"));
    assert!(parameter_text_readable_exec("fr-FR", "success"));
    assert!(!parameter_text_readable_exec("fr-FR", "whatever"));
}
