use promethee::firewall::{
    construct_firewall_rule, delete_rule_command, local_port_readable_exec, port_filter_query, rule_query, Action, Direction,
    FirewallPortFilterRaw, FirewallRule, FirewallRuleRaw, LocalPort, Port, PortSpec, Profile, Protocol,
};

fn rule(port: Port, profiles: Vec<Profile>) -> FirewallRule {
    FirewallRule {
        rule_name: "Block SMB".to_string(),
        action: Action::Block,
        direction: Direction::Inbound,
        protocol: Protocol::TCP,
        local_port: port,
        profiles,
    }
}

fn raw_rule(action: u8, direction: u8, profile: u8) -> FirewallRuleRaw {
    FirewallRuleRaw {
        display_name: "R".to_string(),
        description: None,
        enabled: 1,
        action,
        direction,
        profile,
    }
}

#[test]
fn port_lists_are_written() {
    assert_eq!(Port::Any.text(), "Any");
    let p = Port::List(vec![PortSpec::Single(445), PortSpec::Range { start: 1000, end: 2000 }]);
    assert_eq!(p.text(), "445,1000-2000");
}

#[test]
fn port_lists_are_read() {
    assert!(matches!(Port::from_text("Any"), Some(Port::Any)));
    match Port::from_text("80,8000-8080") {
        Some(Port::List(v)) => assert_eq!(v, vec![PortSpec::Single(80), PortSpec::Range { start: 8000, end: 8080 }]),
        _ => panic!("expected a list"),
    }
    assert!(Port::from_text("http").is_none());
    assert!(Port::from_text("70000").is_none());
    assert!(Port::from_text("").is_none());
}

#[test]
fn the_firewall_description_is_read() {
    let r = construct_firewall_rule(
        raw_rule(2, 0, 3),
        FirewallPortFilterRaw {
            local_port: LocalPort::List { value: vec!["80".to_string()], count: 1 },
            protocol: Protocol::TCP,
        },
    )
    .unwrap();
    assert_eq!(r.action, Action::Allow);
    assert_eq!(r.direction, Direction::Outbound);
    assert_eq!(r.profiles, vec![Profile::Domain, Profile::Private]);
    assert!(matches!(r.local_port, Port::List(ref v) if *v == vec![PortSpec::Single(80)]));
}

#[test]
fn a_single_entry_list_may_hold_a_range() {
    let r = construct_firewall_rule(
        raw_rule(2, 0, 3),
        FirewallPortFilterRaw {
            local_port: LocalPort::List { value: vec!["5000-5010".to_string()], count: 1 },
            protocol: Protocol::TCP,
        },
    )
    .unwrap();
    assert!(matches!(r.local_port, Port::List(ref v) if *v == vec![PortSpec::Range { start: 5000, end: 5010 }]));
    let e = construct_firewall_rule(
        raw_rule(2, 0, 3),
        FirewallPortFilterRaw {
            local_port: LocalPort::List { value: vec!["http".to_string()], count: 1 },
            protocol: Protocol::TCP,
        },
    );
    assert_eq!(e.unwrap_err(), "invalid digit found in string");
}

#[test]
fn unknown_numbers_fall_back() {
    let r = construct_firewall_rule(
        raw_rule(9, 7, 9),
        FirewallPortFilterRaw { local_port: LocalPort::Any("Any".to_string()), protocol: Protocol::UDP },
    )
    .unwrap();
    assert_eq!(r.action, Action::Block);
    assert_eq!(r.direction, Direction::Inbound);
    assert_eq!(r.profiles, vec![Profile::Domain]);
    assert!(matches!(r.local_port, Port::Any));
}

#[test]
fn port_list_entries_become_ranges() {
    let r = construct_firewall_rule(
        raw_rule(4, 1, 4),
        FirewallPortFilterRaw {
            local_port: LocalPort::List { value: vec!["135".to_string(), "49152-65535".to_string()], count: 2 },
            protocol: Protocol::TCP,
        },
    )
    .unwrap();
    match r.local_port {
        Port::List(v) => assert_eq!(v, vec![PortSpec::Single(135), PortSpec::Range { start: 49152, end: 65535 }]),
        _ => panic!("expected a list"),
    }
    let e = construct_firewall_rule(
        raw_rule(4, 1, 4),
        FirewallPortFilterRaw {
            local_port: LocalPort::List { value: vec!["1".to_string(), "x".to_string()], count: 2 },
            protocol: Protocol::TCP,
        },
    );
    assert_eq!(e.unwrap_err(), "invalid digit found in string");
}

#[test]
fn firewall_raw_form_round_trips() {
    let r = rule(Port::List(vec![PortSpec::Single(445)]), vec![Profile::Domain, Profile::Public]);
    let raw = r.to_raw(false);
    assert_eq!(raw.action, "Block");
    assert_eq!(raw.option1, "Inbound");
    assert_eq!(raw.option2, "TCP/445");
    assert_eq!(raw.scope, "Domain,Public");
    let back = FirewallRule::from_raw(raw).unwrap();
    assert_eq!(back.profiles, vec![Profile::Domain, Profile::Public]);
    assert!(matches!(back.local_port, Port::List(ref v) if *v == vec![PortSpec::Single(445)]));
}

#[test]
fn commands_are_built() {
    let r = rule(Port::List(vec![PortSpec::Single(445)]), vec![Profile::Domain]);
    assert_eq!(
        r.create_command(),
        "New-NetFirewallRule -DisplayName \"Block SMB\" -Action Block -Direction Inbound -Protocol TCP -LocalPort 445 -Profile Domain"
    );
    let mut icmp = rule(Port::Any, vec![]);
    icmp.protocol = Protocol::ICMP;
    assert_eq!(
        icmp.create_command(),
        "New-NetFirewallRule -DisplayName \"Block SMB\" -Action Block -Direction Inbound -Protocol ICMP "
    );
    assert_eq!(
        delete_rule_command("X"),
        "Get-NetFirewallRule | Where DisplayName -eq \"X\" | Remove-NetFirewallRule"
    );
    assert!(rule_query("X").ends_with("| ConvertTo-Json"));
    assert!(port_filter_query("X").contains("Get-NetFirewallPortFilter"));
}

#[test]
fn applying_deletes_an_existing_rule_first() {
    let r = rule(Port::Any, vec![Profile::Any]);
    let cmds = r.execute_commands(true);
    assert_eq!(cmds.len(), 2);
    assert!(cmds[0].starts_with("Get-NetFirewallRule"));
    assert!(cmds[1].starts_with("New-NetFirewallRule"));
    let mut gone = rule(Port::Any, vec![Profile::Any]);
    gone.action = Action::NoExists;
    let cmds = gone.execute_commands(false);
    assert_eq!(cmds, vec![delete_rule_command("Block SMB")]);
}

#[test]
fn a_missing_rule_reads_as_not_existing() {
    let r = rule(Port::Any, vec![Profile::Any]);
    let raw = r.current_value(None);
    assert_eq!(raw.action, "NoExists");
}

#[test]
fn a_list_of_one_port_must_hold_it() {
    assert!(local_port_readable_exec(&LocalPort::Any("Any".to_string())));
    assert!(local_port_readable_exec(&LocalPort::List { value: vec!["80".to_string()], count: 1 }));
    assert!(local_port_readable_exec(&LocalPort::List { value: vec![], count: 2 }));
    assert!(!local_port_readable_exec(&LocalPort::List { value: vec![], count: 1 }));
}
