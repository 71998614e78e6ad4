use promethee::appx_package::{
    self, get_appx_package, install_command, AppxPackage, AppxStep,
};
use promethee::windows_capability::{self, get_capability_state, set_outcome, WindowsCapability};
use promethee::windows_optional_feature::{self, feature_action, get_optional_feature_state, WindowsOptionalFeature};

fn package(action: appx_package::Action, source: Option<&str>) -> AppxPackage {
    AppxPackage { name: "Microsoft.BingNews".to_string(), action, package_source: source.map(|s| s.to_string()) }
}

#[test]
fn package_steps_reach_the_wanted_state() {
    let (install, stage, remove) = (appx_package::Action::Install, appx_package::Action::Stage, appx_package::Action::Remove);
    assert_eq!(package(remove, None).steps(install), vec![AppxStep::RemoveInstalled]);
    assert_eq!(package(remove, None).steps(stage), vec![AppxStep::RemoveProvisioned]);
    assert!(package(remove, None).steps(remove).is_empty());
    assert_eq!(package(install, None).steps(stage), vec![AppxStep::Install]);
    assert_eq!(package(stage, None).steps(install), vec![AppxStep::RemoveInstalled, AppxStep::Provision]);
    assert!(package(stage, None).steps(stage).is_empty());
}

#[test]
fn package_paths_put_the_source_first() {
    let p = package(appx_package::Action::Install, Some("D:\\pkgs\\news.appx"));
    assert_eq!(
        p.package_paths(),
        vec![
            "D:\\pkgs\\news.appx".to_string(),
            "C:\\Windows\\Packages\\Microsoft.BingNews\\".to_string(),
            "C:\\Program Files\\WindowsApps\\Microsoft.BingNews\\".to_string(),
        ]
    );
    assert_eq!(install_command("x.appx"), "Add-AppxPackage -Path 'x.appx'");
}

#[test]
fn package_state_is_read_from_queries() {
    let staged = get_appx_package("P".to_string(), "DisplayName : P\r\n", "");
    assert_eq!(staged.action, appx_package::Action::Stage);
    let installed = get_appx_package("P".to_string(), "  \r\n", "Installed\r\n");
    assert_eq!(installed.action, appx_package::Action::Install);
    let absent = get_appx_package("P".to_string(), "", "Staged");
    assert_eq!(absent.action, appx_package::Action::Remove);
}

#[test]
fn package_raw_form_round_trips() {
    let p = package(appx_package::Action::Stage, Some("src"));
    let raw = p.to_raw(false);
    assert_eq!(raw.scope, "src");
    assert_eq!(raw.action, "stage");
    let back = AppxPackage::from_raw(raw).unwrap();
    assert_eq!(back.package_source, Some("src".to_string()));
    let none = AppxPackage::from_raw(package(appx_package::Action::Install, None).to_raw(false)).unwrap();
    assert_eq!(none.package_source, None);
}

#[test]
fn capability_state_is_read_in_snake_case() {
    let c = get_capability_state("OpenSSH.Client".to_string(), "NotPresent\r\n").unwrap();
    assert_eq!(c.action, windows_capability::Action::NotPresent);
    let e = get_capability_state("X".to_string(), "Installed").unwrap_err();
    assert_eq!(e, "unknown variant `installed`, expected `present` or `not_present`");
}

#[test]
fn capability_commands_are_built() {
    let add = WindowsCapability { name: "Tools".to_string(), action: windows_capability::Action::Present };
    assert_eq!(add.set_command(), "Add-WindowsCapability -Online -Name 'Tools' -LimitAccess");
    let rm = WindowsCapability { name: "Tools".to_string(), action: windows_capability::Action::NotPresent };
    assert_eq!(rm.set_command(), "Remove-WindowsCapability -Online -Name 'Tools' ");
    assert!(set_outcome(true).is_ok());
    assert_eq!(set_outcome(false).unwrap_err(), "Failed to set capability state.");
    assert_eq!(WindowsCapability::from_raw(rm.to_raw(false)).unwrap().action, windows_capability::Action::NotPresent);
}

#[test]
fn feature_state_and_commands() {
    assert_eq!(
        get_optional_feature_state("SMB1Protocol".to_string(), "Enabled\r\n").action,
        windows_optional_feature::Action::Enable
    );
    assert_eq!(
        get_optional_feature_state("SMB1Protocol".to_string(), "DisablePending").action,
        windows_optional_feature::Action::Disable
    );
    let f = WindowsOptionalFeature { name: "SMB1Protocol".to_string(), action: windows_optional_feature::Action::Disable };
    assert_eq!(f.set_command(), "Disable-WindowsOptionalFeature -Online -FeatureName 'SMB1Protocol' -NoRestart");
    let raw = f.to_raw(false);
    assert_eq!(raw.action, "disable");
    assert_eq!(WindowsOptionalFeature::from_raw(raw).unwrap().action, windows_optional_feature::Action::Disable);
}

#[test]
fn feature_state_reads_only_enabled_as_enabled() {
    assert_eq!(feature_action("enabled"), windows_optional_feature::Action::Enable);
    assert_eq!(feature_action("disabled"), windows_optional_feature::Action::Disable);
    assert_eq!(feature_action("enablepending"), windows_optional_feature::Action::Disable);
    assert_eq!(feature_action(""), windows_optional_feature::Action::Disable);
}
