use promethee::local_group::{
    self, get_groups_for_account, group_add_member_command, groups_query, sids_of_output, LocalGroup,
};
use promethee::local_user::{
    self, account_status, rid_to_sid, sid_to_rid, user_change_command, AccountChange, LocalAccount,
};

fn group(id: &str, members: &[&str]) -> LocalGroup {
    LocalGroup {
        id: id.to_string(),
        members: members.iter().map(|m| m.to_string()).collect(),
        action: local_group::Action::Exist,
    }
}

#[test]
fn identifiers_are_typed() {
    assert_eq!(local_user::get_type("S-1-5-21-1-500", &Ok(true)), local_user::IdType::SID);
    assert_eq!(local_user::get_type("500", &Ok(false)), local_user::IdType::RID);
    assert_eq!(local_user::get_type("Guest", &Err("bad".to_string())), local_user::IdType::Username);
    assert_eq!(local_user::get_type("70000", &Ok(false)), local_user::IdType::Username);
    assert_eq!(local_group::get_type("Admins", &Ok(false)), local_group::IdType::Name);
    assert_eq!(local_group::get_type("S-1-5-32-544", &Ok(true)), local_group::IdType::SID);
}

#[test]
fn rids_and_sids_convert() {
    let sid = rid_to_sid("S-1-5-21-1-2-3", 500);
    assert_eq!(sid, "S-1-5-21-1-2-3-500");
    assert_eq!(sid_to_rid("S-1-5-21-1-2-3", &sid).unwrap(), "500");
    assert_eq!(
        sid_to_rid("S-1-5-21-1-2-3", "S-1-5-32-544").unwrap_err(),
        "SID does not start with the computer SID"
    );
    assert_eq!(
        sid_to_rid("S-1-5-21-1-2-3", "S-1-5-21-1-2-3-abc").unwrap_err(),
        "Failed to parse RID: invalid digit found in string"
    );
    assert_eq!(
        sid_to_rid("S-1-5-21-1-2-3", "S-1-5-21-1-2-3-").unwrap_err(),
        "Failed to parse RID: cannot parse integer from empty string"
    );
    assert_eq!(
        sid_to_rid("S-1-5-21-1-2-3", "S-1-5-21-1-2-3-70000").unwrap_err(),
        "Failed to parse RID: number too large to fit in target type"
    );
}

#[test]
fn account_status_reads_powershell_output() {
    assert_eq!(account_status(true, "True\r\n"), local_user::Action::Enabled);
    assert_eq!(account_status(true, "true"), local_user::Action::Enabled);
    assert_eq!(account_status(true, "False"), local_user::Action::Disabled);
    assert_eq!(account_status(false, "True"), local_user::Action::NotExist);
}

#[test]
fn account_changes_follow_the_state() {
    let wanted = LocalAccount {
        id: "svc".to_string(),
        groups: vec!["S-1-5-32-545".to_string()],
        action: local_user::Action::Enabled,
    };
    let missing = LocalAccount { id: "svc".to_string(), groups: vec![], action: local_user::Action::NotExist };
    let groups = vec!["S-1-5-32-545".to_string()];
    match wanted.account_change(&missing, &groups, &vec![], "S-1") {
        AccountChange::Create { name, groups } => {
            assert_eq!(name, "svc");
            assert_eq!(groups, vec!["S-1-5-32-545".to_string()]);
        }
        _ => panic!("expected a creation"),
    }
    let same = LocalAccount { id: "svc".to_string(), groups: vec![], action: local_user::Action::Enabled };
    assert!(matches!(wanted.account_change(&same, &groups, &groups, "S-1"), AccountChange::Nothing));
    let disable = LocalAccount { id: "svc".to_string(), groups: vec![], action: local_user::Action::Disabled };
    assert!(matches!(disable.account_change(&same, &vec![], &vec![], "S-9"), AccountChange::Disable { ref sid } if sid == "S-9"));
}

#[test]
fn account_raw_form_round_trips() {
    let a = LocalAccount {
        id: "Guest".to_string(),
        groups: vec!["S-1-5-32-546".to_string(), "S-1-5-32-545".to_string()],
        action: local_user::Action::Disabled,
    };
    let raw = a.to_raw(false);
    assert_eq!(raw.option1, "S-1-5-32-546,S-1-5-32-545");
    assert_eq!(raw.action, "disabled");
    let back = LocalAccount::from_raw(raw).unwrap();
    assert_eq!(back.groups, a.groups);
    assert_eq!(back.action, local_user::Action::Disabled);
    let none = LocalAccount { id: "x".to_string(), groups: vec![], action: local_user::Action::Enabled };
    assert_eq!(LocalAccount::from_raw(none.to_raw(false)).unwrap().groups, vec!["".to_string()]);
}

#[test]
fn group_membership_is_found() {
    let gs = vec![group("S-1-5-32-544", &["S-1", "S-2"]), group("S-1-5-32-545", &["S-2"])];
    assert_eq!(get_groups_for_account(&gs, "S-2"), vec!["S-1-5-32-544".to_string(), "S-1-5-32-545".to_string()]);
    assert_eq!(get_groups_for_account(&gs, "S-1"), vec!["S-1-5-32-544".to_string()]);
    assert!(get_groups_for_account(&gs, "S-3").is_empty());
}

#[test]
fn powershell_tables_give_their_sids() {
    let out = "\r\nSID\r\n---\r\nS-1-5-32-544\r\nS-1-5-32-545  \r\n";
    assert_eq!(sids_of_output(out), vec!["S-1-5-32-544".to_string(), "S-1-5-32-545".to_string()]);
    assert!(sids_of_output("SID\n").is_empty());
}

#[test]
fn group_raw_form_and_commands() {
    let g = group("Auditors", &[]);
    let raw = g.to_raw(false);
    assert_eq!(raw.action, "exist");
    let mut bad = raw.copy();
    bad.action = "maybe".to_string();
    assert!(LocalGroup::from_raw(bad).unwrap_err().starts_with("Invalid action 'maybe' : unknown variant `maybe`"));
    assert_eq!(group_add_member_command("S-1-5-32-544", "S-1"), "Add-LocalGroupMember -SID S-1-5-32-544 -Member S-1");
    assert_eq!(user_change_command("Disable", "S-1"), "Disable-LocalUser -SID S-1");
    let wanted = group("Auditors", &[]);
    let current = LocalGroup { id: "Auditors".to_string(), members: vec![], action: local_group::Action::NotExist };
    assert_eq!(wanted.required_action(&current), Some(local_group::Action::Exist));
    assert_eq!(wanted.required_action(&wanted), None);
}


#[test]
fn the_group_listing_command_asks_for_sids() {
    assert_eq!(groups_query(), "Get-LocalGroup | Select-Object SID");
}
