//! Windows services: how a service starts, as the security template
//! records it under `Registry Values`.
use vstd::prelude::*;

use crate::config::SecEditConfig;
use crate::lgpo::copy_string;
use crate::num::{decimal, fmt_decimal, parse_uint, parse_uint_chars};
use crate::raw::{lit, RawMethod, RawView};
use crate::text::{chars_of, concat, join, rview, split, split_chars, string_of, unknown_variant};

verus! {

/// How a service starts; the service's `Start` value is the variant's
/// position, from `Boot` (0) to `Disabled` (4).
#[derive(Debug, Clone, Copy, PartialEq, Eq, Structural)]
pub enum Action {
    Boot,
    System,
    Automatic,
    Manual,
    Disabled,
}

/// A service and how it should start.
#[derive(Debug)]
pub struct Service {
    pub name: String,
    pub action: Action,
}

pub struct ServiceView {
    pub name: Seq<char>,
    pub action: Action,
}

impl View for Service {
    type V = ServiceView;

    open spec fn view(&self) -> ServiceView {
        ServiceView { name: self.name@, action: self.action }
    }
}

/// The `Start` value of an action.
pub open spec fn start_value(a: Action) -> u32 {
    match a {
        Action::Boot => 0,
        Action::System => 1,
        Action::Automatic => 2,
        Action::Manual => 3,
        Action::Disabled => 4,
    }
}

/// The name of an action in the rules file.
pub open spec fn action_name(a: Action) -> Seq<char> {
    match a {
        Action::Boot => "boot"@,
        Action::System => "system"@,
        Action::Automatic => "automatic"@,
        Action::Manual => "manual"@,
        Action::Disabled => "disabled"@,
    }
}

pub open spec fn action_names() -> Seq<Seq<char>> {
    seq!["boot"@, "system"@, "automatic"@, "manual"@, "disabled"@]
}

/// Reads an action by its name; any other text is an unknown variant.
pub open spec fn action_from_name(s: Seq<char>) -> Result<Action, Seq<char>> {
    if s == "boot"@ {
        Ok(Action::Boot)
    } else if s == "system"@ {
        Ok(Action::System)
    } else if s == "automatic"@ {
        Ok(Action::Automatic)
    } else if s == "manual"@ {
        Ok(Action::Manual)
    } else if s == "disabled"@ {
        Ok(Action::Disabled)
    } else {
        Err(unknown_variant(s, action_names()))
    }
}

impl Action {
    pub fn start_value(&self) -> (r: u32)
        ensures
            r == start_value(*self),
    {
        match self {
            Action::Boot => 0,
            Action::System => 1,
            Action::Automatic => 2,
            Action::Manual => 3,
            Action::Disabled => 4,
        }
    }

    pub fn name(&self) -> (r: &'static str)
        ensures
            r@ == action_name(*self),
    {
        match self {
            Action::Boot => "boot",
            Action::System => "system",
            Action::Automatic => "automatic",
            Action::Manual => "manual",
            Action::Disabled => "disabled",
        }
    }

    /// Reads an action by its name.
    pub fn from_name(s: &str) -> (r: Result<Action, String>)
        ensures
            match action_from_name(s@) {
                Ok(a) => r == Ok::<Action, String>(a),
                Err(e) => r is Err && r->Err_0@ == e,
            },
    {
        let names: Vec<&str> = vec!["boot", "system", "automatic", "manual", "disabled"];
        if crate::text::str_eq(s, "boot") {
            Ok(Action::Boot)
        } else if crate::text::str_eq(s, "system") {
            Ok(Action::System)
        } else if crate::text::str_eq(s, "automatic") {
            Ok(Action::Automatic)
        } else if crate::text::str_eq(s, "manual") {
            Ok(Action::Manual)
        } else if crate::text::str_eq(s, "disabled") {
            Ok(Action::Disabled)
        } else {
            assert(names@.map_values(|n: &str| n@) =~= action_names());
            let v = chars_of(s);
            Err(crate::text::unknown_variant_message(v.as_slice(), &names))
        }
    }
}

/// The security template key of a service's `Start` value.
pub open spec fn start_key(name: Seq<char>) -> Seq<char> {
    "MACHINE\\System\\CurrentControlSet\\Services\\"@ + name + "\\Start"@
}

/// Reads the number of a template DWORD entry, `4,X`: the text after the
/// first comma and before any second one.
pub open spec fn parse_secedit_dword_spec(value: Seq<char>) -> Result<u32, Seq<char>> {
    let parts = split(value, ","@);
    if parts.len() > 1 {
        match parse_uint(parts[1], 10, u32::MAX as nat) {
            Ok(n) => Ok(n as u32),
            Err(_) => Err("Invalid DWORD format"@),
        }
    } else {
        Err("Empty value"@)
    }
}

/// The action of a `Start` value, or the error for a value out of range.
pub open spec fn map_start_value_spec(v: u32, name: Seq<char>) -> Result<Action, Seq<char>> {
    if v == 0 {
        Ok(Action::Boot)
    } else if v == 1 {
        Ok(Action::System)
    } else if v == 2 {
        Ok(Action::Automatic)
    } else if v == 3 {
        Ok(Action::Manual)
    } else if v == 4 {
        Ok(Action::Disabled)
    } else {
        Err("Invalid start value for service "@ + name + ": "@ + decimal(v as nat))
    }
}

/// The `Start` value that the template records for a service.
pub open spec fn secedit_start_value(
    config: Map<Seq<char>, Map<Seq<char>, Seq<char>>>,
    name: Seq<char>,
) -> Result<u32, Seq<char>> {
    if config.contains_key("Registry Values"@) && config["Registry Values"@].contains_key(
        start_key(name),
    ) {
        parse_secedit_dword_spec(config["Registry Values"@][start_key(name)])
    } else {
        Err("Start value not found in SecEdit config"@)
    }
}

/// A service's current action: from the template when it records a
/// readable `Start` value, else from the value the registry holds.
pub open spec fn current_action_spec(
    config: Map<Seq<char>, Map<Seq<char>, Seq<char>>>,
    name: Seq<char>,
    registry_start: u32,
) -> Result<Action, Seq<char>> {
    match secedit_start_value(config, name) {
        Ok(v) => map_start_value_spec(v, name),
        Err(_) => map_start_value_spec(registry_start, name),
    }
}

/// The template after a service's action is recorded in it.
pub open spec fn set_service_spec(
    config: Map<Seq<char>, Map<Seq<char>, Seq<char>>>,
    s: ServiceView,
) -> Map<Seq<char>, Map<Seq<char>, Seq<char>>> {
    config.insert(
        "Registry Values"@,
        if config.contains_key("Registry Values"@) {
            config["Registry Values"@]
        } else {
            Map::empty()
        }.insert(start_key(s.name), "4,"@ + decimal(start_value(s.action) as nat)),
    )
}

pub open spec fn service_to_raw(s: ServiceView) -> RawView {
    RawView {
        method: "service"@,
        target: s.name,
        option1: seq![],
        option2: seq![],
        scope: seq![],
        action: action_name(s.action),
    }
}

pub open spec fn service_from_raw(r: RawView) -> Result<ServiceView, Seq<char>> {
    match action_from_name(r.action) {
        Ok(a) => Ok(ServiceView { name: r.target, action: a }),
        Err(e) => Err("Failed to deserialize action: "@ + e),
    }
}

fn start_key_exec(name: &str) -> (r: String)
    ensures
        r@ == start_key(name@),
{
    let a = chars_of("MACHINE\\System\\CurrentControlSet\\Services\\");
    let b = concat(a.as_slice(), chars_of(name).as_slice());
    let c = concat(b.as_slice(), chars_of("\\Start").as_slice());
    string_of(c.as_slice())
}

/// Reads the number of a template DWORD entry.
pub fn parse_secedit_dword(value: &str) -> (r: Result<u32, String>)
    ensures
        match parse_secedit_dword_spec(value@) {
            Ok(n) => r == Ok::<u32, String>(n),
            Err(e) => r is Err && r->Err_0@ == e,
        },
{
    let comma = vec![','];
    proof {
        reveal_strlit(",");
    }
    assert(comma@ =~= ","@);
    let parts = split_chars(chars_of(value).as_slice(), comma.as_slice());
    if parts.len() > 1 {
        match parse_uint_chars(parts[1].as_slice(), 10, 0xffff_ffff) {
            Ok(n) => Ok(n as u32),
            Err(_) => Err(lit("Invalid DWORD format")),
        }
    } else {
        Err(lit("Empty value"))
    }
}

/// The action of a `Start` value.
pub fn map_start_value_to_action(start_value: u32, service_name: &str) -> (r: Result<Action, String>)
    ensures
        match map_start_value_spec(start_value, service_name@) {
            Ok(a) => r == Ok::<Action, String>(a),
            Err(e) => r is Err && r->Err_0@ == e,
        },
{
    match start_value {
        0 => Ok(Action::Boot),
        1 => Ok(Action::System),
        2 => Ok(Action::Automatic),
        3 => Ok(Action::Manual),
        4 => Ok(Action::Disabled),
        _ => {
            let a = chars_of("Invalid start value for service ");
            let b = concat(a.as_slice(), chars_of(service_name).as_slice());
            let c = concat(b.as_slice(), chars_of(": ").as_slice());
            let d = concat(c.as_slice(), fmt_decimal(start_value as u128).as_slice());
            Err(string_of(d.as_slice()))
        },
    }
}

/// The `Start` value that the template records for a service.
pub fn get_start_value_from_secedit(config: &SecEditConfig, service_name: &str) -> (r: Result<u32, String>)
    ensures
        match secedit_start_value(config.view(), service_name@) {
            Ok(n) => r == Ok::<u32, String>(n),
            Err(e) => r is Err && r->Err_0@ == e,
        },
{
    let key = start_key_exec(service_name);
    match config.get("Registry Values", key.as_str()) {
        Some(value) => parse_secedit_dword(value.as_str()),
        None => Err(lit("Start value not found in SecEdit config")),
    }
}

/// A service's current action:
/// `registry_start` is the `Start` value that the registry holds for the
/// service, 4 where it cannot be read; it counts only when the template
/// records no readable value.
pub fn get_service_current_action(config: &SecEditConfig, service_name: &str, registry_start: u32) -> (r:
    Result<Action, String>)
    ensures
        match current_action_spec(config.view(), service_name@, registry_start) {
            Ok(a) => r == Ok::<Action, String>(a),
            Err(e) => r is Err && r->Err_0@ == e,
        },
{
    match get_start_value_from_secedit(config, service_name) {
        Ok(v) => map_start_value_to_action(v, service_name),
        Err(_) => map_start_value_to_action(registry_start, service_name),
    }
}

/// Records a service's action in the template,
/// creating the `Registry Values` section when it is missing.
pub fn set_service_action(config: &mut SecEditConfig, service: &Service)
    ensures
        final(config).view() == set_service_spec(old(config).view(), service@),
{
    let key = start_key_exec(service.name.as_str());
    let a = chars_of("4,");
    let b = concat(a.as_slice(), fmt_decimal(service.action.start_value() as u128).as_slice());
    let value = string_of(b.as_slice());
    config.set("Registry Values", key.as_str(), value.as_str());
}

impl Service {
    pub fn to_raw(&self, compare_mode: bool) -> (r: RawMethod)
        ensures
            r@ == service_to_raw(self@),
    {
        let r = RawMethod {
            method: lit("service"),
            target: copy_string(&self.name),
            option1: lit(""),
            option2: lit(""),
            scope: lit(""),
            action: lit(self.action.name()),
        };
        proof {
            reveal_strlit("");
        }
        assert(r@.option1 =~= Seq::<char>::empty());
        r
    }

    pub fn from_raw(raw: RawMethod) -> (r: Result<Service, String>)
        ensures
            rview(r) == service_from_raw(raw@),
    {
        match Action::from_name(raw.action.as_str()) {
            Ok(a) => Ok(Service { name: raw.target, action: a }),
            Err(e) => {
                let a = chars_of("Failed to deserialize action: ");
                let b = concat(a.as_slice(), chars_of(e.as_str()).as_slice());
                Err(string_of(b.as_slice()))
            },
        }
    }

    /// Records this service's action in the template.
    pub fn execute(&self, config: &mut SecEditConfig)
        ensures
            final(config).view() == set_service_spec(old(config).view(), self@),
    {
        set_service_action(config, self)
    }

    /// This service's current action, as a raw method.
    pub fn current_value(&self, config: &SecEditConfig, registry_start: u32) -> (r: Result<RawMethod, String>)
        ensures
            match current_action_spec(config.view(), self.name@, registry_start) {
                Ok(a) => r is Ok && r->Ok_0@ == service_to_raw(ServiceView { name: self.name@, action: a }),
                Err(e) => r is Err && r->Err_0@ == e,
            },
    {
        match get_service_current_action(config, self.name.as_str(), registry_start) {
            Ok(a) => Ok(Service { name: copy_string(&self.name), action: a }.to_raw(false)),
            Err(e) => Err(e),
        }
    }
}

proof fn lemma_names_distinct()
    ensures
        "boot"@ == seq!['b', 'o', 'o', 't'],
        "system"@ == seq!['s', 'y', 's', 't', 'e', 'm'],
        "automatic"@ == seq!['a', 'u', 't', 'o', 'm', 'a', 't', 'i', 'c'],
        "manual"@ == seq!['m', 'a', 'n', 'u', 'a', 'l'],
        "disabled"@ == seq!['d', 'i', 's', 'a', 'b', 'l', 'e', 'd'],
{
    reveal_strlit("boot");
    reveal_strlit("system");
    reveal_strlit("automatic");
    reveal_strlit("manual");
    reveal_strlit("disabled");
    assert("boot"@ =~= seq!['b', 'o', 'o', 't']);
    assert("system"@ =~= seq!['s', 'y', 's', 't', 'e', 'm']);
    assert("automatic"@ =~= seq!['a', 'u', 't', 'o', 'm', 'a', 't', 'i', 'c']);
    assert("manual"@ =~= seq!['m', 'a', 'n', 'u', 'a', 'l']);
    assert("disabled"@ =~= seq!['d', 'i', 's', 'a', 'b', 'l', 'e', 'd']);
}

/// An action's name reads back as that action.
pub proof fn lemma_action_name_roundtrip(a: Action)
    ensures
        action_from_name(action_name(a)) == Ok::<Action, Seq<char>>(a),
{
    lemma_names_distinct();
    let n = action_name(a);
    assert(n.len() != "boot"@.len() || n[0] != "boot"@[0] || a == Action::Boot);
    assert(n.len() != "system"@.len() || n[0] != "system"@[0] || a == Action::System);
    assert(n.len() != "automatic"@.len() || a == Action::Automatic);
    assert(n.len() != "manual"@.len() || n[0] != "manual"@[0] || a == Action::Manual);
    assert(n.len() != "disabled"@.len() || a == Action::Disabled);
}

/// A service read from its raw form is the service written.
pub proof fn lemma_service_raw_roundtrip(s: ServiceView)
    ensures
        service_from_raw(service_to_raw(s)) == Ok::<ServiceView, Seq<char>>(s),
{
    lemma_action_name_roundtrip(s.action);
}

/// Every action's `Start` value maps back to it, and only the values 0 to
/// 4 name an action.
pub proof fn lemma_start_value_roundtrip(a: Action, v: u32, name: Seq<char>)
    ensures
        map_start_value_spec(start_value(a), name) == Ok::<Action, Seq<char>>(a),
        map_start_value_spec(v, name) is Ok <==> v <= 4,
        map_start_value_spec(v, name) matches Ok(b) ==> start_value(b) == v,
{
}

/// The DWORD entry written for a number reads back as that number.
pub proof fn lemma_dword_entry(v: u32)
    ensures
        parse_secedit_dword_spec("4,"@ + decimal(v as nat)) == Ok::<u32, Seq<char>>(v),
{
    reveal_strlit("4,");
    reveal_strlit("4");
    reveal_strlit(",");
    let d = decimal(v as nat);
    crate::lgpo::lemma_decimal_chars(v as nat);
    let parts = seq!["4"@, d];
    assert("4"@ =~= seq!['4']);
    assert(","@ =~= seq![',']);
    assert forall|i: int, j: int| 0 <= i < parts.len() && 0 <= j < parts[i].len() implies parts[i][j] != ',' by {
        if i == 1 {
            assert(0x30 <= (d[j] as u32) <= 0x39);
        }
    }
    crate::text::lemma_split_join_single(parts, ',');
    assert(parts.drop_last() =~= seq!["4"@]);
    assert(join(seq!["4"@], seq![',']) == "4"@);
    assert(parts.last() == d);
    assert(join(parts, seq![',']) == join(parts.drop_last(), seq![',']) + seq![','] + d);
    assert("4,"@ =~= seq!['4', ',']);
    assert(join(parts, seq![',']) =~= "4,"@ + d);
    crate::num::lemma_decimal_roundtrip(v as nat, u32::MAX as nat);
}

/// After a service's action is recorded, the template gives that action as
/// the service's current one, whatever the registry holds.
pub proof fn lemma_set_then_current(
    config: Map<Seq<char>, Map<Seq<char>, Seq<char>>>,
    s: ServiceView,
    registry_start: u32,
)
    ensures
        current_action_spec(set_service_spec(config, s), s.name, registry_start) == Ok::<
            Action,
            Seq<char>,
        >(s.action),
{
    lemma_dword_entry(start_value(s.action));
    lemma_start_value_roundtrip(s.action, 0, s.name);
}

proof fn lemma_start_key_injective(a: Seq<char>, b: Seq<char>)
    requires
        start_key(a) == start_key(b),
    ensures
        a == b,
{
    let p = "MACHINE\\System\\CurrentControlSet\\Services\\"@;
    let q = "\\Start"@;
    assert(start_key(a).len() == p.len() + a.len() + q.len());
    assert forall|i: int| 0 <= i < a.len() implies a[i] == b[i] by {
        assert(start_key(a)[p.len() + i] == a[i]);
        assert(start_key(b)[p.len() + i] == b[i]);
    }
    assert(a =~= b);
}

/// Recording a service's action leaves what the template gives for every
/// other service.
pub proof fn lemma_set_keeps_other_services(
    config: Map<Seq<char>, Map<Seq<char>, Seq<char>>>,
    s: ServiceView,
    other: Seq<char>,
    registry_start: u32,
)
    requires
        other != s.name,
    ensures
        current_action_spec(set_service_spec(config, s), other, registry_start)
            == current_action_spec(config, other, registry_start),
{
    if start_key(other) == start_key(s.name) {
        lemma_start_key_injective(other, s.name);
    }
}

/// A service's `Start` value grows the later it starts: boot 0, system 1,
/// automatic 2, manual 3, disabled 4; each value reads back as its action.
pub proof fn lemma_start_values_ordered(a: Action, name: Seq<char>)
    ensures
        start_value(Action::Boot) == 0,
        start_value(Action::Boot) < start_value(Action::System),
        start_value(Action::System) < start_value(Action::Automatic),
        start_value(Action::Automatic) < start_value(Action::Manual),
        start_value(Action::Manual) < start_value(Action::Disabled),
        start_value(Action::Disabled) == 4,
        map_start_value_spec(start_value(a), name) == Ok::<Action, Seq<char>>(a),
{
}

} // verus!
