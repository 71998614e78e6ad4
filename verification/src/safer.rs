//! Software restriction policies (SAFER): the rules, as the local policy
//! holds them under `Safer\CodeIdentifiers`, and how they are read from
//! and written back to its settings.
use vstd::prelude::*;

use crate::lgpo::{copy_string, Action as LgpoAction, ActionView as LgpoActionView, Configuration, ConfigurationView, LgpoView, LocalGroupPolicyObject, put_setting};
use crate::num::{decimal, int_error_message, int_error_text, parse_uint, parse_uint_chars, IntErrorKind};
use crate::raw::{lit, RawMethod, RawView};
use crate::text::{
    ascii_upper, cat2, cat3, chars_of, concat, rview, starts_with, str_eq, string_of, strip_prefix, unknown_variant,
    unknown_variant_message,
};

verus! {

/// What a software restriction rule allows: its number in the registry is 0, 131072 or 262144.
#[derive(Debug, Clone, Copy, PartialEq, Eq, Structural)]
pub enum SecurityLevel {
    Disallowed,
    BasicUser,
    Unrestricted,
}

/// How each `SecurityLevel` is written in text.
pub open spec fn security_level_name(x: SecurityLevel) -> Seq<char> {
    match x {
        SecurityLevel::Disallowed => "disallowed"@,
        SecurityLevel::BasicUser => "basic_user"@,
        SecurityLevel::Unrestricted => "unrestricted"@,
    }
}

pub open spec fn security_level_names() -> Seq<Seq<char>> {
    seq!["disallowed"@, "basic_user"@, "unrestricted"@]
}

/// Reads the `SecurityLevel` written as `s`; any other text is an unknown variant.
pub open spec fn security_level_from_name(s: Seq<char>) -> Result<SecurityLevel, Seq<char>> {
    if s == "disallowed"@ {
        Ok(SecurityLevel::Disallowed)
    } else if s == "basic_user"@ {
        Ok(SecurityLevel::BasicUser)
    } else if s == "unrestricted"@ {
        Ok(SecurityLevel::Unrestricted)
    } else {
        Err(unknown_variant(s, security_level_names()))
    }
}

impl SecurityLevel {
    pub fn name(&self) -> (r: &'static str)
        ensures
            r@ == security_level_name(*self),
    {
        match self {
            SecurityLevel::Disallowed => "disallowed",
            SecurityLevel::BasicUser => "basic_user",
            SecurityLevel::Unrestricted => "unrestricted",
        }
    }

    /// Reads the `SecurityLevel` written as `s`.
    pub fn from_name(s: &str) -> (r: Result<SecurityLevel, String>)
        ensures
            match security_level_from_name(s@) {
                Ok(x) => r == Ok::<SecurityLevel, String>(x),
                Err(e) => r is Err && r->Err_0@ == e,
            },
    {
        let names: Vec<&str> = vec!["disallowed", "basic_user", "unrestricted"];
        if str_eq(s, "disallowed") {
            Ok(SecurityLevel::Disallowed)
        } else if str_eq(s, "basic_user") {
            Ok(SecurityLevel::BasicUser)
        } else if str_eq(s, "unrestricted") {
            Ok(SecurityLevel::Unrestricted)
        } else {
            assert(names@.map_values(|n: &str| n@) =~= security_level_names());
            let v = chars_of(s);
            Err(unknown_variant_message(v.as_slice(), &names))
        }
    }
}

proof fn lemma_security_level_names()
    ensures
        "disallowed"@ == seq!['d', 'i', 's', 'a', 'l', 'l', 'o', 'w', 'e', 'd'],
        "basic_user"@ == seq!['b', 'a', 's', 'i', 'c', '_', 'u', 's', 'e', 'r'],
        "unrestricted"@ == seq!['u', 'n', 'r', 'e', 's', 't', 'r', 'i', 'c', 't', 'e', 'd'],
{
    reveal_strlit("disallowed");
    reveal_strlit("basic_user");
    reveal_strlit("unrestricted");
    assert("disallowed"@ =~= seq!['d', 'i', 's', 'a', 'l', 'l', 'o', 'w', 'e', 'd']);
    assert("basic_user"@ =~= seq!['b', 'a', 's', 'i', 'c', '_', 'u', 's', 'e', 'r']);
    assert("unrestricted"@ =~= seq!['u', 'n', 'r', 'e', 's', 't', 'r', 'i', 'c', 't', 'e', 'd']);
}

/// The text of each `SecurityLevel` reads back as it.
pub proof fn lemma_security_level_name_roundtrip(x: SecurityLevel)
    ensures
        security_level_from_name(security_level_name(x)) == Ok::<SecurityLevel, Seq<char>>(x),
{
    lemma_security_level_names();
    assert("disallowed"@[0] != "basic_user"@[0]);
    assert("disallowed"@.len() != "unrestricted"@.len());
    assert("basic_user"@.len() != "unrestricted"@.len());
}

/// What a software restriction rule matches programs by.
#[derive(Debug, Clone, Copy, PartialEq, Eq, Structural)]
pub enum RuleType {
    Paths,
    Hashes,
    UrlZones,
}

/// How each `RuleType` is written in text.
pub open spec fn rule_type_name(x: RuleType) -> Seq<char> {
    match x {
        RuleType::Paths => "Paths"@,
        RuleType::Hashes => "Hashes"@,
        RuleType::UrlZones => "UrlZones"@,
    }
}

pub open spec fn rule_type_names() -> Seq<Seq<char>> {
    seq!["Paths"@, "Hashes"@, "UrlZones"@]
}

/// Reads the `RuleType` written as `s`; any other text is an unknown variant.
pub open spec fn rule_type_from_name(s: Seq<char>) -> Result<RuleType, Seq<char>> {
    if s == "Paths"@ {
        Ok(RuleType::Paths)
    } else if s == "Hashes"@ {
        Ok(RuleType::Hashes)
    } else if s == "UrlZones"@ {
        Ok(RuleType::UrlZones)
    } else {
        Err(unknown_variant(s, rule_type_names()))
    }
}

impl RuleType {
    pub fn name(&self) -> (r: &'static str)
        ensures
            r@ == rule_type_name(*self),
    {
        match self {
            RuleType::Paths => "Paths",
            RuleType::Hashes => "Hashes",
            RuleType::UrlZones => "UrlZones",
        }
    }

    /// Reads the `RuleType` written as `s`.
    pub fn from_name(s: &str) -> (r: Result<RuleType, String>)
        ensures
            match rule_type_from_name(s@) {
                Ok(x) => r == Ok::<RuleType, String>(x),
                Err(e) => r is Err && r->Err_0@ == e,
            },
    {
        let names: Vec<&str> = vec!["Paths", "Hashes", "UrlZones"];
        if str_eq(s, "Paths") {
            Ok(RuleType::Paths)
        } else if str_eq(s, "Hashes") {
            Ok(RuleType::Hashes)
        } else if str_eq(s, "UrlZones") {
            Ok(RuleType::UrlZones)
        } else {
            assert(names@.map_values(|n: &str| n@) =~= rule_type_names());
            let v = chars_of(s);
            Err(unknown_variant_message(v.as_slice(), &names))
        }
    }
}

proof fn lemma_rule_type_names()
    ensures
        "Paths"@ == seq!['P', 'a', 't', 'h', 's'],
        "Hashes"@ == seq!['H', 'a', 's', 'h', 'e', 's'],
        "UrlZones"@ == seq!['U', 'r', 'l', 'Z', 'o', 'n', 'e', 's'],
{
    reveal_strlit("Paths");
    reveal_strlit("Hashes");
    reveal_strlit("UrlZones");
    assert("Paths"@ =~= seq!['P', 'a', 't', 'h', 's']);
    assert("Hashes"@ =~= seq!['H', 'a', 's', 'h', 'e', 's']);
    assert("UrlZones"@ =~= seq!['U', 'r', 'l', 'Z', 'o', 'n', 'e', 's']);
}

/// The text of each `RuleType` reads back as it.
pub proof fn lemma_rule_type_name_roundtrip(x: RuleType)
    ensures
        rule_type_from_name(rule_type_name(x)) == Ok::<RuleType, Seq<char>>(x),
{
    lemma_rule_type_names();
    assert("Paths"@.len() != "Hashes"@.len());
    assert("Paths"@.len() != "UrlZones"@.len());
    assert("Hashes"@.len() != "UrlZones"@.len());
}

/// An Internet Explorer security zone: its number in the registry is 0 (local machine) to 4 (restricted sites).
#[derive(Debug, Clone, Copy, PartialEq, Eq, Structural)]
pub enum UrlZones {
    Internet,
    LocalIntranet,
    LocalMachine,
    TrustedSites,
    RestrictedSites,
}

/// How each `UrlZones` is written in text.
pub open spec fn url_zones_name(x: UrlZones) -> Seq<char> {
    match x {
        UrlZones::Internet => "Internet"@,
        UrlZones::LocalIntranet => "LocalIntranet"@,
        UrlZones::LocalMachine => "LocalMachine"@,
        UrlZones::TrustedSites => "TrustedSites"@,
        UrlZones::RestrictedSites => "RestrictedSites"@,
    }
}

pub open spec fn url_zones_names() -> Seq<Seq<char>> {
    seq!["Internet"@, "LocalIntranet"@, "LocalMachine"@, "TrustedSites"@, "RestrictedSites"@]
}

/// Reads the `UrlZones` written as `s`; any other text is an unknown variant.
pub open spec fn url_zones_from_name(s: Seq<char>) -> Result<UrlZones, Seq<char>> {
    if s == "Internet"@ {
        Ok(UrlZones::Internet)
    } else if s == "LocalIntranet"@ {
        Ok(UrlZones::LocalIntranet)
    } else if s == "LocalMachine"@ {
        Ok(UrlZones::LocalMachine)
    } else if s == "TrustedSites"@ {
        Ok(UrlZones::TrustedSites)
    } else if s == "RestrictedSites"@ {
        Ok(UrlZones::RestrictedSites)
    } else {
        Err(unknown_variant(s, url_zones_names()))
    }
}

impl UrlZones {
    pub fn name(&self) -> (r: &'static str)
        ensures
            r@ == url_zones_name(*self),
    {
        match self {
            UrlZones::Internet => "Internet",
            UrlZones::LocalIntranet => "LocalIntranet",
            UrlZones::LocalMachine => "LocalMachine",
            UrlZones::TrustedSites => "TrustedSites",
            UrlZones::RestrictedSites => "RestrictedSites",
        }
    }

    /// Reads the `UrlZones` written as `s`.
    pub fn from_name(s: &str) -> (r: Result<UrlZones, String>)
        ensures
            match url_zones_from_name(s@) {
                Ok(x) => r == Ok::<UrlZones, String>(x),
                Err(e) => r is Err && r->Err_0@ == e,
            },
    {
        let names: Vec<&str> = vec!["Internet", "LocalIntranet", "LocalMachine", "TrustedSites", "RestrictedSites"];
        if str_eq(s, "Internet") {
            Ok(UrlZones::Internet)
        } else if str_eq(s, "LocalIntranet") {
            Ok(UrlZones::LocalIntranet)
        } else if str_eq(s, "LocalMachine") {
            Ok(UrlZones::LocalMachine)
        } else if str_eq(s, "TrustedSites") {
            Ok(UrlZones::TrustedSites)
        } else if str_eq(s, "RestrictedSites") {
            Ok(UrlZones::RestrictedSites)
        } else {
            assert(names@.map_values(|n: &str| n@) =~= url_zones_names());
            let v = chars_of(s);
            Err(unknown_variant_message(v.as_slice(), &names))
        }
    }
}

proof fn lemma_url_zones_names()
    ensures
        "Internet"@ == seq!['I', 'n', 't', 'e', 'r', 'n', 'e', 't'],
        "LocalIntranet"@ == seq!['L', 'o', 'c', 'a', 'l', 'I', 'n', 't', 'r', 'a', 'n', 'e', 't'],
        "LocalMachine"@ == seq!['L', 'o', 'c', 'a', 'l', 'M', 'a', 'c', 'h', 'i', 'n', 'e'],
        "TrustedSites"@ == seq!['T', 'r', 'u', 's', 't', 'e', 'd', 'S', 'i', 't', 'e', 's'],
        "RestrictedSites"@ == seq!['R', 'e', 's', 't', 'r', 'i', 'c', 't', 'e', 'd', 'S', 'i', 't', 'e', 's'],
{
    reveal_strlit("Internet");
    reveal_strlit("LocalIntranet");
    reveal_strlit("LocalMachine");
    reveal_strlit("TrustedSites");
    reveal_strlit("RestrictedSites");
    assert("Internet"@ =~= seq!['I', 'n', 't', 'e', 'r', 'n', 'e', 't']);
    assert("LocalIntranet"@ =~= seq!['L', 'o', 'c', 'a', 'l', 'I', 'n', 't', 'r', 'a', 'n', 'e', 't']);
    assert("LocalMachine"@ =~= seq!['L', 'o', 'c', 'a', 'l', 'M', 'a', 'c', 'h', 'i', 'n', 'e']);
    assert("TrustedSites"@ =~= seq!['T', 'r', 'u', 's', 't', 'e', 'd', 'S', 'i', 't', 'e', 's']);
    assert("RestrictedSites"@ =~= seq!['R', 'e', 's', 't', 'r', 'i', 'c', 't', 'e', 'd', 'S', 'i', 't', 'e', 's']);
}

/// The text of each `UrlZones` reads back as it.
pub proof fn lemma_url_zones_name_roundtrip(x: UrlZones)
    ensures
        url_zones_from_name(url_zones_name(x)) == Ok::<UrlZones, Seq<char>>(x),
{
    lemma_url_zones_names();
    assert("Internet"@.len() != "LocalIntranet"@.len());
    assert("Internet"@.len() != "LocalMachine"@.len());
    assert("Internet"@.len() != "TrustedSites"@.len());
    assert("Internet"@.len() != "RestrictedSites"@.len());
    assert("LocalIntranet"@.len() != "LocalMachine"@.len());
    assert("LocalIntranet"@.len() != "TrustedSites"@.len());
    assert("LocalIntranet"@.len() != "RestrictedSites"@.len());
    assert("LocalMachine"@[0] != "TrustedSites"@[0]);
    assert("LocalMachine"@.len() != "RestrictedSites"@.len());
    assert("TrustedSites"@.len() != "RestrictedSites"@.len());
}

/// Whether a software restriction rule should exist.
#[derive(Debug, Clone, Copy, PartialEq, Eq, Structural)]
pub enum State {
    Exists,
    NotExists,
}

/// How each `State` is written in text.
pub open spec fn state_name(x: State) -> Seq<char> {
    match x {
        State::Exists => "exists"@,
        State::NotExists => "not_exists"@,
    }
}

pub open spec fn state_names() -> Seq<Seq<char>> {
    seq!["exists"@, "not_exists"@]
}

/// Reads the `State` written as `s`; any other text is an unknown variant.
pub open spec fn state_from_name(s: Seq<char>) -> Result<State, Seq<char>> {
    if s == "exists"@ {
        Ok(State::Exists)
    } else if s == "not_exists"@ {
        Ok(State::NotExists)
    } else {
        Err(unknown_variant(s, state_names()))
    }
}

impl State {
    pub fn name(&self) -> (r: &'static str)
        ensures
            r@ == state_name(*self),
    {
        match self {
            State::Exists => "exists",
            State::NotExists => "not_exists",
        }
    }

    /// Reads the `State` written as `s`.
    pub fn from_name(s: &str) -> (r: Result<State, String>)
        ensures
            match state_from_name(s@) {
                Ok(x) => r == Ok::<State, String>(x),
                Err(e) => r is Err && r->Err_0@ == e,
            },
    {
        let names: Vec<&str> = vec!["exists", "not_exists"];
        if str_eq(s, "exists") {
            Ok(State::Exists)
        } else if str_eq(s, "not_exists") {
            Ok(State::NotExists)
        } else {
            assert(names@.map_values(|n: &str| n@) =~= state_names());
            let v = chars_of(s);
            Err(unknown_variant_message(v.as_slice(), &names))
        }
    }
}

proof fn lemma_state_names()
    ensures
        "exists"@ == seq!['e', 'x', 'i', 's', 't', 's'],
        "not_exists"@ == seq!['n', 'o', 't', '_', 'e', 'x', 'i', 's', 't', 's'],
{
    reveal_strlit("exists");
    reveal_strlit("not_exists");
    assert("exists"@ =~= seq!['e', 'x', 'i', 's', 't', 's']);
    assert("not_exists"@ =~= seq!['n', 'o', 't', '_', 'e', 'x', 'i', 's', 't', 's']);
}

/// The text of each `State` reads back as it.
pub proof fn lemma_state_name_roundtrip(x: State)
    ensures
        state_from_name(state_name(x)) == Ok::<State, Seq<char>>(x),
{
    lemma_state_names();
    assert("exists"@.len() != "not_exists"@.len());
}

pub open spec fn security_level_number(l: SecurityLevel) -> u32 {
    match l {
        SecurityLevel::Disallowed => 0,
        SecurityLevel::BasicUser => 131072,
        SecurityLevel::Unrestricted => 262144,
    }
}

pub open spec fn url_zone_number(z: UrlZones) -> u64 {
    match z {
        UrlZones::LocalMachine => 0,
        UrlZones::LocalIntranet => 1,
        UrlZones::TrustedSites => 2,
        UrlZones::Internet => 3,
        UrlZones::RestrictedSites => 4,
    }
}

/// What a rule applies to: a path, or an Internet zone.
#[derive(Debug)]
pub enum Target {
    Path(String),
    UrlZone(UrlZones),
}

pub enum TargetView {
    Path(Seq<char>),
    UrlZone(UrlZones),
}

impl View for Target {
    type V = TargetView;

    open spec fn view(&self) -> TargetView {
        match self {
            Target::Path(p) => TargetView::Path(p@),
            Target::UrlZone(z) => TargetView::UrlZone(*z),
        }
    }
}

/// A software restriction rule. Its last change is a Unix time, seconds
/// and nanoseconds; its GUID is the text between the braces of its key.
#[derive(Debug)]
pub struct SoftwareRestrictionPolicy {
    pub target: Target,
    pub security_level: SecurityLevel,
    pub rule_type: RuleType,
    pub description: Option<String>,
    pub last_modified: Option<(i64, u32)>,
    pub lgpo_guid: Option<String>,
    pub state: State,
}

pub open spec fn opt_view(o: Option<String>) -> Option<Seq<char>> {
    match o {
        Some(s) => Some(s@),
        None => None,
    }
}

pub struct PolicyView {
    pub target: TargetView,
    pub security_level: SecurityLevel,
    pub rule_type: RuleType,
    pub description: Option<Seq<char>>,
    pub last_modified: Option<(i64, u32)>,
    pub lgpo_guid: Option<Seq<char>>,
    pub state: State,
}

impl View for SoftwareRestrictionPolicy {
    type V = PolicyView;

    open spec fn view(&self) -> PolicyView {
        PolicyView {
            target: self.target@,
            security_level: self.security_level,
            rule_type: self.rule_type,
            description: opt_view(self.description),
            last_modified: self.last_modified,
            lgpo_guid: opt_view(self.lgpo_guid),
            state: self.state,
        }
    }
}

pub open spec fn policies_view(v: Seq<SoftwareRestrictionPolicy>) -> Seq<PolicyView> {
    v.map_values(|p: SoftwareRestrictionPolicy| p@)
}

// ------------------------------------------------------------------
// The rule in the rules file
// ------------------------------------------------------------------

/// What the tool puts before the descriptions it writes.
pub open spec fn description_prefix() -> Seq<char> {
    "[promethee] "@
}

pub open spec fn target_text(t: TargetView) -> Seq<char> {
    match t {
        TargetView::Path(p) => p,
        TargetView::UrlZone(z) => url_zones_name(z),
    }
}

/// A description without the tool's prefix.
pub open spec fn bare_description(d: Option<Seq<char>>) -> Seq<char> {
    match d {
        Some(s) => match strip_prefix(s, description_prefix()) {
            Some(rest) => rest,
            None => s,
        },
        None => seq![],
    }
}

pub open spec fn safer_to_raw(p: PolicyView) -> RawView {
    RawView {
        method: "safer"@,
        target: target_text(p.target),
        option1: security_level_name(p.security_level),
        option2: bare_description(p.description),
        scope: rule_type_name(p.rule_type),
        action: state_name(p.state),
    }
}

/// Reading a raw rule of hashes panics (it is not implemented).
pub open spec fn safer_raw_readable(r: RawView) -> bool {
    rule_type_from_name(r.scope) != Ok::<RuleType, Seq<char>>(RuleType::Hashes)
}

pub open spec fn safer_from_raw(r: RawView) -> Result<PolicyView, Seq<char>> {
    match rule_type_from_name(r.scope) {
        Err(e) => Err("Invalid rule type '"@ + r.scope + "': "@ + e),
        Ok(rt) => {
            let target: Result<TargetView, Seq<char>> = if rt == RuleType::Paths {
                Ok(TargetView::Path(r.target))
            } else {
                match url_zones_from_name(r.target) {
                    Ok(z) => Ok(TargetView::UrlZone(z)),
                    Err(e) => Err("Invalid URL zone '"@ + r.target + "': "@ + e),
                }
            };
            match target {
                Err(e) => Err(e),
                Ok(t) => match state_from_name(r.action) {
                    Err(e) => Err("Invalid state '"@ + r.action + "': "@ + e),
                    Ok(st) => match security_level_from_name(r.option1) {
                        Err(e) => Err("Invalid security level '"@ + r.option1 + "': "@ + e),
                        Ok(l) => Ok(
                            PolicyView {
                                target: t,
                                security_level: l,
                                rule_type: rt,
                                description: if r.option2.len() == 0 {
                                    None
                                } else {
                                    Some(r.option2)
                                },
                                last_modified: None,
                                lgpo_guid: None,
                                state: st,
                            },
                        ),
                    },
                },
            }
        },
    }
}

fn quoted_error(head: &str, value: &str, e: &str) -> (r: String)
    ensures
        r@ == head@ + value@ + "': "@ + e@,
{
    let a = cat3(head, value, "': ");
    cat2(a.as_str(), e)
}

fn copy_target(t: &Target) -> (r: Target)
    ensures
        r@ == t@,
{
    match t {
        Target::Path(p) => Target::Path(copy_string(p)),
        Target::UrlZone(z) => Target::UrlZone(*z),
    }
}

fn copy_opt(o: &Option<String>) -> (r: Option<String>)
    ensures
        opt_view(r) == opt_view(*o),
{
    match o {
        Some(s) => Some(copy_string(s)),
        None => None,
    }
}

impl SoftwareRestrictionPolicy {
    pub fn copy(&self) -> (r: SoftwareRestrictionPolicy)
        ensures
            r@ == self@,
    {
        SoftwareRestrictionPolicy {
            target: copy_target(&self.target),
            security_level: self.security_level,
            rule_type: self.rule_type,
            description: copy_opt(&self.description),
            last_modified: self.last_modified,
            lgpo_guid: copy_opt(&self.lgpo_guid),
            state: self.state,
        }
    }

    pub fn to_raw(&self, compare_mode: bool) -> (r: RawMethod)
        ensures
            r@ == safer_to_raw(self@),
    {
        let target = match &self.target {
            Target::Path(p) => copy_string(p),
            Target::UrlZone(z) => lit(z.name()),
        };
        let option2 = match &self.description {
            Some(d) => {
                let prefix = chars_of("[promethee] ");
                match crate::text::strip_prefix_chars(chars_of(d.as_str()).as_slice(), prefix.as_slice()) {
                    Some(rest) => string_of(rest.as_slice()),
                    None => copy_string(d),
                }
            },
            None => {
                let e = lit("");
                proof {
                    reveal_strlit("");
                }
                assert(e@ =~= Seq::<char>::empty());
                e
            },
        };
        RawMethod {
            method: lit("safer"),
            target,
            option1: lit(self.security_level.name()),
            option2,
            scope: lit(self.rule_type.name()),
            action: lit(self.state.name()),
        }
    }

    /// Reads a rule from its raw method; a rule of hashes cannot be read.
    pub fn from_raw(raw: RawMethod) -> (r: Result<SoftwareRestrictionPolicy, String>)
        requires
            safer_raw_readable(raw@),
        ensures
            rview(r) == safer_from_raw(raw@),
    {
        let rule_type = match RuleType::from_name(raw.scope.as_str()) {
            Ok(rt) => rt,
            Err(e) => return Err(quoted_error("Invalid rule type '", raw.scope.as_str(), e.as_str())),
        };
        let target = if rule_type == RuleType::Paths {
            Target::Path(copy_string(&raw.target))
        } else {
            match UrlZones::from_name(raw.target.as_str()) {
                Ok(z) => Target::UrlZone(z),
                Err(e) => return Err(quoted_error("Invalid URL zone '", raw.target.as_str(), e.as_str())),
            }
        };
        let state = match State::from_name(raw.action.as_str()) {
            Ok(s) => s,
            Err(e) => return Err(quoted_error("Invalid state '", raw.action.as_str(), e.as_str())),
        };
        let security_level = match SecurityLevel::from_name(raw.option1.as_str()) {
            Ok(l) => l,
            Err(e) => return Err(quoted_error("Invalid security level '", raw.option1.as_str(), e.as_str())),
        };
        let description = if chars_of(raw.option2.as_str()).len() == 0 {
            None
        } else {
            Some(copy_string(&raw.option2))
        };
        Ok(
            SoftwareRestrictionPolicy {
                target,
                security_level,
                rule_type,
                description,
                last_modified: None,
                lgpo_guid: None,
                state,
            },
        )
    }
}

/// A rule read from its raw method is the rule written, but for its last
/// change and GUID, which the raw method does not hold: where its target
/// fits its type, and its description is not empty and does not start with
/// the tool's prefix.
pub proof fn lemma_safer_raw_roundtrip(p: PolicyView)
    requires
        p.rule_type == RuleType::Paths ==> p.target is Path,
        p.rule_type == RuleType::UrlZones ==> p.target is UrlZone,
        p.rule_type != RuleType::Hashes,
        p.description matches Some(d) ==> d.len() > 0 && !starts_with(d, description_prefix()),
    ensures
        safer_raw_readable(safer_to_raw(p)),
        safer_from_raw(safer_to_raw(p)) == Ok::<PolicyView, Seq<char>>(
            PolicyView { last_modified: None, lgpo_guid: None, ..p },
        ),
{
    lemma_rule_type_name_roundtrip(p.rule_type);
    lemma_state_name_roundtrip(p.state);
    lemma_security_level_name_roundtrip(p.security_level);
    if let TargetView::UrlZone(z) = p.target {
        lemma_url_zones_name_roundtrip(z);
    }
}

// ------------------------------------------------------------------
// The settings of the rules
// ------------------------------------------------------------------

/// The key under which the rules are.
pub open spec fn code_identifiers() -> Seq<char> {
    "Software\\Policies\\Microsoft\\Windows\\Safer\\CodeIdentifiers"@
}

/// A setting belongs to a rule where its key is under the rules' key
/// (the key itself holds the general settings).
pub open spec fn is_safer_rule_key(key: Seq<char>) -> bool {
    key != code_identifiers() && starts_with(key, code_identifiers() + "\\"@)
}

/// Whether a setting belongs to a rule.
pub fn is_safer_rule_lgpo(lgpo: &LocalGroupPolicyObject) -> (r: bool)
    ensures
        r == is_safer_rule_key(lgpo@.registry_key),
{
    let key = lgpo.registry_key.as_str();
    if str_eq(key, "Software\\Policies\\Microsoft\\Windows\\Safer\\CodeIdentifiers") {
        return false;
    }
    let prefix = chars_of("Software\\Policies\\Microsoft\\Windows\\Safer\\CodeIdentifiers\\");
    proof {
        reveal_strlit("Software\\Policies\\Microsoft\\Windows\\Safer\\CodeIdentifiers\\");
        reveal_strlit("Software\\Policies\\Microsoft\\Windows\\Safer\\CodeIdentifiers");
        reveal_strlit("\\");
    }
    assert(prefix@ =~= code_identifiers() + "\\"@);
    crate::text::strip_prefix_chars(chars_of(key).as_slice(), prefix.as_slice()).is_some()
}

pub open spec fn computer_setting(key: Seq<char>, name: Seq<char>, action: LgpoActionView) -> LgpoView {
    LgpoView { configuration: ConfigurationView::Computer, registry_key: key, value_name: name, action }
}

/// The file types that the rules cover.
pub open spec fn executable_types() -> Seq<Seq<char>> {
    seq!["ADE"@, "ADP"@, "BAS"@, "BAT"@, "CHM"@, "CMD"@, "COM"@, "CPL"@, "CRT"@, "EXE"@, "HLP"@, "HTA"@, "INF"@, "INS"@, "ISP"@, "LNK"@, "MDB"@, "MDE"@, "MSC"@, "MSI"@, "MSP"@, "MST"@, "OCX"@, "PCD"@, "PIF"@, "REG"@, "SCR"@, "SHS"@, "URL"@, "VB"@, "WSC"@]
}

/// The settings that the rules need, and that go when there is no rule.
pub open spec fn minimal_settings() -> Seq<LgpoView> {
    let certs = "Software\\Policies\\Microsoft\\SystemCertificates\\"@;
    seq![
        computer_setting(certs + "Disallowed\\Certificates"@, "*"@, LgpoActionView::CreateKey),
        computer_setting(certs + "Disallowed\\CRLs"@, "*"@, LgpoActionView::CreateKey),
        computer_setting(certs + "Disallowed\\CTLs"@, "*"@, LgpoActionView::CreateKey),
        computer_setting(certs + "TrustedPublisher\\Certificates"@, "*"@, LgpoActionView::CreateKey),
        computer_setting(certs + "TrustedPublisher\\CRLs"@, "*"@, LgpoActionView::CreateKey),
        computer_setting(certs + "TrustedPublisher\\CTLs"@, "*"@, LgpoActionView::CreateKey),
        computer_setting(code_identifiers(), "DefaultLevel"@, LgpoActionView::Dword(262144)),
        computer_setting(code_identifiers(), "TransparentEnabled"@, LgpoActionView::Dword(1)),
        computer_setting(code_identifiers(), "PolicyScope"@, LgpoActionView::Dword(0)),
        computer_setting(code_identifiers(), "ExecutableTypes"@, LgpoActionView::MultiSz(executable_types())),
    ]
}

fn computer(key: String, name: &str, action: LgpoAction) -> (r: LocalGroupPolicyObject)
    ensures
        r@ == computer_setting(key@, name@, action@),
{
    LocalGroupPolicyObject { configuration: Configuration::Computer, registry_key: key, value_name: lit(name), action }
}

/// The settings that the rules need.
pub fn safer_minimal_registry_keys() -> (r: Vec<LocalGroupPolicyObject>)
    ensures
        r.deep_view() == minimal_settings(),
{
    let certs = "Software\\Policies\\Microsoft\\SystemCertificates\\";
    let ci = "Software\\Policies\\Microsoft\\Windows\\Safer\\CodeIdentifiers";
    let types: Vec<String> = vec![lit("ADE"), lit("ADP"), lit("BAS"), lit("BAT"), lit("CHM"), lit("CMD"), lit("COM"), lit("CPL"), lit("CRT"), lit("EXE"), lit("HLP"), lit("HTA"), lit("INF"), lit("INS"), lit("ISP"), lit("LNK"), lit("MDB"), lit("MDE"), lit("MSC"), lit("MSI"), lit("MSP"), lit("MST"), lit("OCX"), lit("PCD"), lit("PIF"), lit("REG"), lit("SCR"), lit("SHS"), lit("URL"), lit("VB"), lit("WSC")];
    let ghost tv = types.deep_view();
    assert(tv =~= executable_types());
    let r = vec![
        computer(cat2(certs, "Disallowed\\Certificates"), "*", LgpoAction::CreateKey),
        computer(cat2(certs, "Disallowed\\CRLs"), "*", LgpoAction::CreateKey),
        computer(cat2(certs, "Disallowed\\CTLs"), "*", LgpoAction::CreateKey),
        computer(cat2(certs, "TrustedPublisher\\Certificates"), "*", LgpoAction::CreateKey),
        computer(cat2(certs, "TrustedPublisher\\CRLs"), "*", LgpoAction::CreateKey),
        computer(cat2(certs, "TrustedPublisher\\CTLs"), "*", LgpoAction::CreateKey),
        computer(lit(ci), "DefaultLevel", LgpoAction::Dword(262144)),
        computer(lit(ci), "TransparentEnabled", LgpoAction::Dword(1)),
        computer(lit(ci), "PolicyScope", LgpoAction::Dword(0)),
        computer(lit(ci), "ExecutableTypes", LgpoAction::MultiSz(types)),
    ];
    assert(r.deep_view() =~= minimal_settings());
    r
}

/// The needed settings that the policy lacks, in their order.
pub open spec fn missing_settings(lgpos: Seq<LgpoView>) -> Seq<LgpoView> {
    minimal_settings().filter(|m: LgpoView| !lgpos.contains(m))
}

fn contains_lgpo(v: &Vec<LocalGroupPolicyObject>, x: &LocalGroupPolicyObject) -> (r: bool)
    ensures
        r == v.deep_view().contains(x@),
{
    let mut i: usize = 0;
    while i < v.len()
        invariant
            i <= v@.len(),
            forall|j: int| 0 <= j < i ==> v.deep_view()[j] != x@,
        decreases v@.len() - i,
    {
        if v[i].same(x) {
            assert(v.deep_view()[i as int] == x@);
            return true;
        }
        i = i + 1;
    }
    false
}

/// The needed settings that the policy lacks.
pub fn get_missing_lgpo(lgpos: &Vec<LocalGroupPolicyObject>) -> (r: Vec<LocalGroupPolicyObject>)
    ensures
        r.deep_view() == missing_settings(lgpos.deep_view()),
{
    let minimal = safer_minimal_registry_keys();
    let ghost mv = minimal.deep_view();
    let ghost lv = lgpos.deep_view();
    let mut out: Vec<LocalGroupPolicyObject> = Vec::new();
    let mut i: usize = 0;
    assert(mv.take(0) =~= Seq::<LgpoView>::empty());
    while i < minimal.len()
        invariant
            i <= minimal@.len(),
            mv == minimal.deep_view(),
            lv == lgpos.deep_view(),
            out.deep_view() == mv.take(i as int).filter(|m: LgpoView| !lv.contains(m)),
        decreases minimal@.len() - i,
    {
        let ghost t = mv.take(i + 1);
        assert(t.drop_last() =~= mv.take(i as int));
        assert(t.last() == minimal@[i as int]@);
        proof {
            mv.take(i as int).lemma_filter_push(t.last(), |m: LgpoView| !lv.contains(m));
            assert(mv.take(i as int).push(t.last()) =~= t);
        }
        if !contains_lgpo(lgpos, &minimal[i]) {
            out.push(minimal[i].copy());
        }
        i = i + 1;
    }
    assert(mv.take(i as int) =~= mv);
    out
}

/// The settings after each of `ms` is put into them, in turn, as applying
/// an LGPO setting does.
pub open spec fn put_settings(lgpos: Seq<LgpoView>, ms: Seq<LgpoView>) -> Seq<LgpoView>
    decreases ms.len(),
{
    if ms.len() == 0 {
        lgpos
    } else {
        put_setting(put_settings(lgpos, ms.drop_last()), ms.last())
    }
}

/// Creates the missing needed settings: each is applied to the policy's
/// settings in turn, replacing an entry for the same setting or appended.
pub fn create_missing_lgpo(
    lgpos: &mut Vec<LocalGroupPolicyObject>,
    missing_lgpo: Vec<LocalGroupPolicyObject>,
) -> (r: Result<(), String>)
    ensures
        r is Ok,
        final(lgpos).deep_view() == put_settings(old(lgpos).deep_view(), missing_lgpo.deep_view()),
{
    let ghost base = lgpos.deep_view();
    let ghost mv = missing_lgpo.deep_view();
    let mut i: usize = 0;
    assert(mv.take(0) =~= Seq::<LgpoView>::empty());
    while i < missing_lgpo.len()
        invariant
            i <= missing_lgpo@.len(),
            mv == missing_lgpo.deep_view(),
            lgpos.deep_view() == put_settings(base, mv.take(i as int)),
        decreases missing_lgpo@.len() - i,
    {
        assert(mv.take(i + 1).drop_last() =~= mv.take(i as int));
        assert(mv.take(i + 1).last() == missing_lgpo@[i as int]@);
        missing_lgpo[i].execute(lgpos);
        i = i + 1;
    }
    assert(mv.take(i as int) =~= mv);
    Ok(())
}

// ------------------------------------------------------------------
// Reading the rules from the policy
// ------------------------------------------------------------------

/// What the `regex` crate's first match of a pattern in a text captures:
/// the text of each group that took part, in order; `None` where nothing
/// matches or the pattern does not compile.
pub uninterp spec fn regex_captures(pattern: Seq<char>, text: Seq<char>) -> Option<Seq<Option<Seq<char>>>>;

pub open spec fn captures_view(r: Option<Vec<Option<String>>>) -> Option<Seq<Option<Seq<char>>>> {
    match r {
        Some(v) => Some(v@.map_values(|o: Option<String>| opt_view(o))),
        None => None,
    }
}

/// Compiles a pattern with `regex::Regex::new` and returns the groups of
/// its first match in the text with `regex::Regex::captures` (nothing
/// where the pattern does not compile or does not match); what they are is
/// named, not described.
#[verifier::external_body]
fn captures(pattern: &str, text: &str) -> (r: Option<Vec<Option<String>>>)
    ensures
        captures_view(r) == regex_captures(pattern@, text@),
{
    let re = regex::Regex::new(pattern).ok()?;
    re.captures(text).map(|c| c.iter().map(|m| m.map(|m| m.as_str().to_string())).collect())
}

/// Whether chrono has a date and time for a Unix time in whole seconds.
pub uninterp spec fn utc_timestamp_valid(secs: i64) -> bool;

/// `chrono::DateTime::from_timestamp(secs, 0)`, as seconds and
/// nanoseconds: chrono documents that a time it makes gives back the
/// seconds and nanoseconds it was made from; which seconds it refuses as
/// out of range is named, not described.
#[verifier::external_body]
fn utc_from_timestamp(secs: i64) -> (r: Option<(i64, u32)>)
    ensures
        r is Some == utc_timestamp_valid(secs),
        r matches Some(t) ==> t == (secs, 0u32),
{
    chrono::DateTime::from_timestamp(secs, 0).map(|dt| (dt.timestamp(), dt.timestamp_subsec_nanos()))
}

/// The pattern of a rule's key: its security level, its type and its
/// GUID in braces.
pub open spec fn rule_key_pattern() -> Seq<char> {
    "^Software\\\\Policies\\\\Microsoft\\\\Windows\\\\Safer\\\\CodeIdentifiers\\\\(\\d+)\\\\(Paths|UrlZones)\\\\(\\{[0-9A-Fa-f\\-]+\\})$"@
}

/// The security level, type and braced GUID of a rule's setting, where
/// its key is a rule's.
pub open spec fn rule_key(l: LgpoView) -> Option<(Seq<char>, Seq<char>, Seq<char>)> {
    match regex_captures(rule_key_pattern(), l.registry_key) {
        Some(c) => if c.len() >= 4 && c[1] is Some && c[2] is Some && c[3] is Some {
            Some((c[1]->0, c[2]->0, c[3]->0))
        } else {
            None
        },
        None => None,
    }
}

/// A setting of the policy with what is read from it first: the key of
/// the rule it belongs to, and, for the last change of a rule that is
/// read, the time that chrono makes of its file time.
#[derive(Debug)]
pub struct KeyedSetting {
    pub setting: LocalGroupPolicyObject,
    pub key: Option<(String, String, String)>,
    pub time: Option<(i64, u32)>,
}

pub struct KeyedView {
    pub setting: LgpoView,
    pub key: Option<(Seq<char>, Seq<char>, Seq<char>)>,
    pub time: Option<(i64, u32)>,
}

impl View for KeyedSetting {
    type V = KeyedView;

    open spec fn view(&self) -> KeyedView {
        KeyedView {
            setting: self.setting@,
            key: match self.key {
                Some(k) => Some(key_view(k)),
                None => None,
            },
            time: self.time,
        }
    }
}

pub open spec fn keyed_views(v: Seq<KeyedSetting>) -> Seq<KeyedView> {
    v.map_values(|k: KeyedSetting| k@)
}

/// The time of a rule's last change, for a setting that is read as one:
/// chrono's time for its file time, where chrono has one.
pub open spec fn setting_time(l: LgpoView) -> Option<(i64, u32)> {
    if reads_filetime(l) {
        let secs = qword_epoch(l.action->Qword_0) as i64;
        if utc_timestamp_valid(secs) {
            Some((secs, 0u32))
        } else {
            None
        }
    } else {
        None
    }
}

/// A setting with its key and time.
pub open spec fn keyed(l: LgpoView) -> KeyedView {
    KeyedView { setting: l, key: rule_key(l), time: setting_time(l) }
}

pub open spec fn keyed_all(ls: Seq<LgpoView>) -> Seq<KeyedView> {
    ls.map_values(|l: LgpoView| keyed(l))
}

/// The keys of the rules, each once, in the order they first come.
pub open spec fn rule_keys(ls: Seq<KeyedView>) -> Seq<(Seq<char>, Seq<char>, Seq<char>)>
    decreases ls.len(),
{
    if ls.len() == 0 {
        seq![]
    } else {
        let ks = rule_keys(ls.drop_last());
        match ls.last().key {
            Some(k) => if ks.contains(k) {
                ks
            } else {
                ks.push(k)
            },
            None => ks,
        }
    }
}

pub open spec fn level_of(n: nat) -> Option<SecurityLevel> {
    if n == 0 {
        Some(SecurityLevel::Disallowed)
    } else if n == 131072 {
        Some(SecurityLevel::BasicUser)
    } else if n == 262144 {
        Some(SecurityLevel::Unrestricted)
    } else {
        None
    }
}

pub open spec fn rule_type_of(s: Seq<char>) -> Option<RuleType> {
    if s == "Paths"@ {
        Some(RuleType::Paths)
    } else if s == "UrlZones"@ {
        Some(RuleType::UrlZones)
    } else {
        None
    }
}

pub open spec fn zone_of(n: u32) -> Option<UrlZones> {
    if n == 0 {
        Some(UrlZones::LocalMachine)
    } else if n == 1 {
        Some(UrlZones::LocalIntranet)
    } else if n == 2 {
        Some(UrlZones::TrustedSites)
    } else if n == 3 {
        Some(UrlZones::Internet)
    } else if n == 4 {
        Some(UrlZones::RestrictedSites)
    } else {
        None
    }
}

pub open spec fn is_brace(c: char) -> bool {
    c == '{' || c == '}'
}

pub open spec fn trim_braces_start(s: Seq<char>) -> Seq<char>
    decreases s.len(),
{
    if s.len() > 0 && is_brace(s[0]) {
        trim_braces_start(s.drop_first())
    } else {
        s
    }
}

pub open spec fn trim_braces_end(s: Seq<char>) -> Seq<char>
    decreases s.len(),
{
    if s.len() > 0 && is_brace(s.last()) {
        trim_braces_end(s.drop_last())
    } else {
        s
    }
}

/// A GUID without its braces (`trim_matches` of both).
pub open spec fn trim_braces(s: Seq<char>) -> Seq<char> {
    trim_braces_end(trim_braces_start(s))
}

/// What the settings of a rule say so far: its target, description and
/// last change.
pub type GroupState = (Option<TargetView>, Option<Seq<char>>, Option<(i64, u32)>);

/// The Unix time of a file time held as a QWORD.
pub open spec fn qword_epoch(ft: u128) -> int {
    (ft as u64) / 10_000_000 - 11_644_473_600
}

/// What one setting of a rule adds: a path (for a rule of paths) or a zone
/// (for a rule of zones, where its number is one) as target, a
/// description, or the time of the last change.
pub open spec fn absorb(st: GroupState, k: KeyedView, rt: RuleType) -> GroupState {
    let l = k.setting;
    if l.value_name == "ItemData"@ {
        match l.action {
            LgpoActionView::ExSz(p) => if rt == RuleType::Paths {
                (Some(TargetView::Path(p)), st.1, st.2)
            } else {
                st
            },
            LgpoActionView::Dword(z) => if rt == RuleType::UrlZones && zone_of(z as u32) is Some {
                (Some(TargetView::UrlZone(zone_of(z as u32)->0)), st.1, st.2)
            } else {
                st
            },
            _ => st,
        }
    } else if l.value_name == "Description"@ {
        match l.action {
            LgpoActionView::Sz(d) => (st.0, Some(d), st.2),
            _ => st,
        }
    } else if l.value_name == "LastModified"@ {
        match l.action {
            LgpoActionView::Qword(_) => (st.0, st.1, k.time),
            _ => st,
        }
    } else {
        st
    }
}

/// What the settings of one rule say, in their order.
pub open spec fn absorb_keyed(
    st: GroupState,
    ls: Seq<KeyedView>,
    k: (Seq<char>, Seq<char>, Seq<char>),
    rt: RuleType,
) -> GroupState
    decreases ls.len(),
{
    if ls.len() == 0 {
        st
    } else {
        let s2 = absorb_keyed(st, ls.drop_last(), k, rt);
        if ls.last().key == Some(k) {
            absorb(s2, ls.last(), rt)
        } else {
            s2
        }
    }
}

/// The rule of a key: its security level must read as a number; a key of
/// another level or type, or without a target, gives no rule.
pub open spec fn group_policy(ls: Seq<KeyedView>, k: (Seq<char>, Seq<char>, Seq<char>)) -> Result<
    Option<PolicyView>,
    IntErrorKind,
> {
    match parse_uint(k.0, 10, u32::MAX as nat) {
        Err(e) => Err(e),
        Ok(n) => match (level_of(n), rule_type_of(k.1)) {
            (Some(level), Some(rt)) => {
                let st = absorb_keyed((None, None, None), ls, k, rt);
                match st.0 {
                    Some(t) => Ok(
                        Some(
                            PolicyView {
                                target: t,
                                security_level: level,
                                rule_type: rt,
                                description: st.1,
                                last_modified: st.2,
                                lgpo_guid: Some(trim_braces(k.2)),
                                state: State::Exists,
                            },
                        ),
                    ),
                    None => Ok(None),
                }
            },
            _ => Ok(None),
        },
    }
}

/// The rules of the keys, in order, or the error of the first key whose
/// level does not read.
pub open spec fn policies_of(ls: Seq<KeyedView>, ks: Seq<(Seq<char>, Seq<char>, Seq<char>)>) -> Result<
    Seq<PolicyView>,
    IntErrorKind,
>
    decreases ks.len(),
{
    if ks.len() == 0 {
        Ok(seq![])
    } else {
        match policies_of(ls, ks.drop_last()) {
            Err(e) => Err(e),
            Ok(ps) => match group_policy(ls, ks.last()) {
                Err(e) => Err(e),
                Ok(None) => Ok(ps),
                Ok(Some(p)) => Ok(ps.push(p)),
            },
        }
    }
}

/// The rules that settings read with their keys and times hold, in the
/// order their keys first appear.
pub open spec fn rules_of_settings(ks: Seq<KeyedView>) -> Result<Seq<PolicyView>, Seq<char>> {
    match policies_of(ks, rule_keys(ks)) {
        Ok(ps) => Ok(ps),
        Err(e) => Err(int_error_text(e)),
    }
}

/// The rules that the policy's settings hold, in the order their keys
/// first appear.
pub open spec fn parse_lgpos_spec(ls: Seq<LgpoView>) -> Result<Seq<PolicyView>, Seq<char>> {
    rules_of_settings(keyed_all(ls))
}

/// A setting of a rule that is read, whose GUID must read as one.
pub open spec fn keyed_guid_read(k: KeyedView) -> bool {
    k.key matches Some(kk) && key_counts(kk)
}

/// The braced GUID of a setting's key.
pub open spec fn keyed_guid(k: KeyedView) -> Seq<char> {
    match k.key {
        Some(kk) => kk.2,
        None => seq![],
    }
}

/// The GUIDs of the rules that are read all read.
pub open spec fn guids_readable(ks: Seq<KeyedView>) -> bool {
    forall|i: int| 0 <= i < ks.len() && #[trigger] keyed_guid_read(ks[i]) ==> guid_valid(trim_braces(keyed_guid(ks[i])))
}

/// A key whose settings are read.
pub open spec fn key_counts(k: (Seq<char>, Seq<char>, Seq<char>)) -> bool {
    parse_uint(k.0, 10, u32::MAX as nat) matches Ok(n) && level_of(n) is Some && rule_type_of(k.1) is Some
}

/// A setting whose file time is read: the last change of a rule that is
/// read.
pub open spec fn reads_filetime(l: LgpoView) -> bool {
    match rule_key(l) {
        Some(k) => key_counts(k) && l.value_name == "LastModified"@ && l.action is Qword,
        None => false,
    }
}

pub open spec fn is_hex(c: char) -> bool {
    let u = c as u32;
    (0x30 <= u && u <= 0x39) || (0x61 <= u && u <= 0x66) || (0x41 <= u && u <= 0x46)
}

/// The text of a GUID that `windows` reads: eight, four, four, four and
/// twelve hexadecimal digits, joined by dashes. It prints such a GUID back
/// in upper case.
pub open spec fn guid_valid(g: Seq<char>) -> bool {
    &&& g.len() == 36
    &&& forall|i: int|
        0 <= i < 36 ==> if i == 8 || i == 13 || i == 18 || i == 23 {
            g[i] == '-'
        } else {
            is_hex(#[trigger] g[i])
        }
}

/// The GUID of a read rule, which must read as one.
pub open spec fn reads_guid(l: LgpoView) -> bool {
    match rule_key(l) {
        Some(k) => key_counts(k),
        None => false,
    }
}

/// Reading a read rule must not panic: its GUID reads, and its last
/// change does not underflow.
pub open spec fn parse_readable(ls: Seq<LgpoView>) -> bool {
    &&& forall|i: int|
        0 <= i < ls.len() && #[trigger] reads_filetime(ls[i]) ==> crate::utils::filetime_after_epoch(
            ls[i].action->Qword_0 as u64,
        )
    &&& forall|i: int|
        0 <= i < ls.len() && #[trigger] reads_guid(ls[i]) ==> guid_valid(rule_guid(ls[i]))
}

/// The GUID of a rule's setting, without its braces.
pub open spec fn rule_guid(l: LgpoView) -> Seq<char> {
    match rule_key(l) {
        Some(k) => trim_braces(k.2),
        None => seq![],
    }
}

pub open spec fn key_view(k: (String, String, String)) -> (Seq<char>, Seq<char>, Seq<char>) {
    (k.0@, k.1@, k.2@)
}

pub open spec fn keys_view(v: Seq<(String, String, String)>) -> Seq<(Seq<char>, Seq<char>, Seq<char>)> {
    v.map_values(|k: (String, String, String)| key_view(k))
}

fn rule_key_exec(l: &LocalGroupPolicyObject) -> (r: Option<(String, String, String)>)
    ensures
        match r {
            Some(k) => rule_key(l@) == Some(key_view(k)),
            None => rule_key(l@) is None,
        },
{
    let c = match captures("^Software\\\\Policies\\\\Microsoft\\\\Windows\\\\Safer\\\\CodeIdentifiers\\\\(\\d+)\\\\(Paths|UrlZones)\\\\(\\{[0-9A-Fa-f\\-]+\\})$", l.registry_key.as_str()) {
        Some(c) => c,
        None => return None,
    };
    if c.len() < 4 {
        return None;
    }
    assert(opt_view(c@[1]) == captures_view(Some(c))->0[1]);
    assert(opt_view(c@[2]) == captures_view(Some(c))->0[2]);
    assert(opt_view(c@[3]) == captures_view(Some(c))->0[3]);
    match (&c[1], &c[2], &c[3]) {
        (Some(a), Some(b), Some(d)) => Some((copy_string(a), copy_string(b), copy_string(d))),
        _ => None,
    }
}

fn key_eq(a: &(String, String, String), b: &(String, String, String)) -> (r: bool)
    ensures
        r == (key_view(*a) == key_view(*b)),
{
    str_eq(a.0.as_str(), b.0.as_str()) && str_eq(a.1.as_str(), b.1.as_str()) && str_eq(a.2.as_str(), b.2.as_str())
}

fn contains_key(v: &Vec<(String, String, String)>, k: &(String, String, String)) -> (r: bool)
    ensures
        r == keys_view(v@).contains(key_view(*k)),
{
    let mut i: usize = 0;
    while i < v.len()
        invariant
            i <= v@.len(),
            forall|j: int| 0 <= j < i ==> keys_view(v@)[j] != key_view(*k),
        decreases v@.len() - i,
    {
        if key_eq(&v[i], k) {
            assert(keys_view(v@)[i as int] == key_view(*k));
            return true;
        }
        i = i + 1;
    }
    false
}

fn copy_key(k: &(String, String, String)) -> (r: (String, String, String))
    ensures
        key_view(r) == key_view(*k),
{
    (copy_string(&k.0), copy_string(&k.1), copy_string(&k.2))
}

fn rule_keys_exec(settings: &Vec<KeyedSetting>) -> (r: Vec<(String, String, String)>)
    ensures
        keys_view(r@) == rule_keys(keyed_views(settings@)),
{
    let ghost lv = keyed_views(settings@);
    let mut ks: Vec<(String, String, String)> = Vec::new();
    let mut i: usize = 0;
    assert(lv.take(0) =~= Seq::<KeyedView>::empty());
    assert(keys_view(ks@) =~= Seq::<(Seq<char>, Seq<char>, Seq<char>)>::empty());
    while i < settings.len()
        invariant
            i <= settings@.len(),
            lv == keyed_views(settings@),
            keys_view(ks@) == rule_keys(lv.take(i as int)),
        decreases settings@.len() - i,
    {
        let ghost t = lv.take(i + 1);
        assert(t.drop_last() =~= lv.take(i as int));
        assert(t.last() == settings@[i as int]@);
        match &settings[i].key {
            Some(k) => {
                if !contains_key(&ks, k) {
                    let ghost before = ks@;
                    ks.push(copy_key(k));
                    assert(keys_view(ks@) =~= keys_view(before).push(key_view(*k)));
                }
            },
            None => {},
        }
        i = i + 1;
    }
    assert(lv.take(i as int) =~= lv);
    ks
}

/// What the settings of a rule say so far.
struct Gathered {
    target: Option<Target>,
    description: Option<String>,
    last_modified: Option<(i64, u32)>,
}

spec fn gathered_view(g: Gathered) -> GroupState {
    (
        match g.target {
            Some(t) => Some(t@),
            None => None,
        },
        opt_view(g.description),
        g.last_modified,
    )
}

fn zone_exec(n: u32) -> (r: Option<UrlZones>)
    ensures
        r == zone_of(n),
{
    match n {
        0 => Some(UrlZones::LocalMachine),
        1 => Some(UrlZones::LocalIntranet),
        2 => Some(UrlZones::TrustedSites),
        3 => Some(UrlZones::Internet),
        4 => Some(UrlZones::RestrictedSites),
        _ => None,
    }
}

fn absorb_exec(g: Gathered, k: &KeyedSetting, rt: RuleType) -> (r: Gathered)
    ensures
        gathered_view(r) == absorb(gathered_view(g), k@, rt),
{
    let l = &k.setting;
    let name = l.value_name.as_str();
    if str_eq(name, "ItemData") {
        match &l.action {
            LgpoAction::ExSz(p) => if rt == RuleType::Paths {
                Gathered { target: Some(Target::Path(copy_string(p))), ..g }
            } else {
                g
            },
            LgpoAction::Dword(z) => {
                let zone = zone_exec(*z as u32);
                if rt == RuleType::UrlZones && zone.is_some() {
                    Gathered { target: Some(Target::UrlZone(zone.unwrap())), ..g }
                } else {
                    g
                }
            },
            _ => g,
        }
    } else if str_eq(name, "Description") {
        match &l.action {
            LgpoAction::Sz(d) => Gathered { description: Some(copy_string(d)), ..g },
            _ => g,
        }
    } else if str_eq(name, "LastModified") {
        match &l.action {
            LgpoAction::Qword(_) => Gathered { last_modified: k.time, ..g },
            _ => g,
        }
    } else {
        g
    }
}

fn level_exec(n: u128) -> (r: Option<SecurityLevel>)
    ensures
        r == level_of(n as nat),
{
    if n == 0 {
        Some(SecurityLevel::Disallowed)
    } else if n == 131072 {
        Some(SecurityLevel::BasicUser)
    } else if n == 262144 {
        Some(SecurityLevel::Unrestricted)
    } else {
        None
    }
}

fn rule_type_exec(s: &str) -> (r: Option<RuleType>)
    ensures
        r == rule_type_of(s@),
{
    if str_eq(s, "Paths") {
        Some(RuleType::Paths)
    } else if str_eq(s, "UrlZones") {
        Some(RuleType::UrlZones)
    } else {
        None
    }
}

fn trim_braces_exec(s: &str) -> (r: String)
    ensures
        r@ == trim_braces(s@),
{
    let cs = chars_of(s);
    let n = cs.len();
    let mut i: usize = 0;
    assert(cs@.skip(0) =~= cs@);
    while i < n && (cs[i] == '{' || cs[i] == '}')
        invariant
            i <= n,
            n == cs@.len(),
            trim_braces_start(cs@) == trim_braces_start(cs@.skip(i as int)),
        decreases n - i,
    {
        assert(cs@.skip(i as int).drop_first() =~= cs@.skip(i + 1));
        i = i + 1;
    }
    let ghost t = cs@.skip(i as int);
    assert(trim_braces_start(cs@) == t) by {
        if i == n {
            assert(t =~= Seq::<char>::empty());
        }
    }
    let mut j: usize = n;
    while j > i && (cs[j - 1] == '{' || cs[j - 1] == '}')
        invariant
            i <= j <= n,
            n == cs@.len(),
            t == cs@.skip(i as int),
            trim_braces_end(t) == trim_braces_end(cs@.subrange(i as int, j as int)),
        decreases j,
    {
        assert(cs@.subrange(i as int, j as int).drop_last() =~= cs@.subrange(i as int, j - 1));
        j = j - 1;
    }
    assert(trim_braces_end(cs@.subrange(i as int, j as int)) == cs@.subrange(i as int, j as int)) by {
        if i == j {
            assert(cs@.subrange(i as int, j as int) =~= Seq::<char>::empty());
        }
    }
    assert(t =~= cs@.subrange(i as int, n as int));
    let v = crate::text::slice_vec(cs.as_slice(), i, j);
    string_of(v.as_slice())
}

fn group_policy_exec(settings: &Vec<KeyedSetting>, k: &(String, String, String)) -> (r: Result<
    Option<SoftwareRestrictionPolicy>,
    IntErrorKind,
>)
    ensures
        match group_policy(keyed_views(settings@), key_view(*k)) {
            Ok(Some(p)) => r is Ok && r->Ok_0 is Some && r->Ok_0->0@ == p,
            Ok(None) => r is Ok && r->Ok_0 is None,
            Err(e) => r == Err::<Option<SoftwareRestrictionPolicy>, IntErrorKind>(e),
        },
{
    let ghost lv = keyed_views(settings@);
    let ghost kv = key_view(*k);
    let n = parse_uint_chars(chars_of(k.0.as_str()).as_slice(), 10, 0xffff_ffff)?;
    let level = match level_exec(n) {
        Some(l) => l,
        None => return Ok(None),
    };
    let rt = match rule_type_exec(k.1.as_str()) {
        Some(t) => t,
        None => return Ok(None),
    };
    let mut g = Gathered { target: None, description: None, last_modified: None };
    let mut i: usize = 0;
    assert(lv.take(0) =~= Seq::<KeyedView>::empty());
    while i < settings.len()
        invariant
            i <= settings@.len(),
            lv == keyed_views(settings@),
            kv == key_view(*k),
            gathered_view(g) == absorb_keyed((None, None, None), lv.take(i as int), kv, rt),
        decreases settings@.len() - i,
    {
        let ghost t = lv.take(i + 1);
        assert(t.drop_last() =~= lv.take(i as int));
        assert(t.last() == settings@[i as int]@);
        match &settings[i].key {
            Some(ki) => {
                if key_eq(ki, k) {
                    g = absorb_exec(g, &settings[i], rt);
                }
            },
            None => {},
        }
        i = i + 1;
    }
    assert(lv.take(i as int) =~= lv);
    match g.target {
        Some(t) => Ok(
            Some(
                SoftwareRestrictionPolicy {
                    target: t,
                    security_level: level,
                    rule_type: rt,
                    description: g.description,
                    last_modified: g.last_modified,
                    lgpo_guid: Some(trim_braces_exec(k.2.as_str())),
                    state: State::Exists,
                },
            ),
        ),
        None => Ok(None),
    }
}

/// The rules that settings read with their keys and times hold, in the
/// order their keys first appear; the GUIDs of the rules read must read.
pub fn rules_from_settings(settings: &Vec<KeyedSetting>) -> (r: Result<Vec<SoftwareRestrictionPolicy>, String>)
    requires
        guids_readable(keyed_views(settings@)),
    ensures
        match rules_of_settings(keyed_views(settings@)) {
            Ok(ps) => r is Ok && policies_view(r->Ok_0@) == ps,
            Err(e) => r is Err && r->Err_0@ == e,
        },
{
    let ghost lv = keyed_views(settings@);
    let keys = rule_keys_exec(settings);
    let ghost kv = keys_view(keys@);
    let mut out: Vec<SoftwareRestrictionPolicy> = Vec::new();
    let mut i: usize = 0;
    assert(kv.take(0) =~= Seq::<(Seq<char>, Seq<char>, Seq<char>)>::empty());
    assert(policies_view(out@) =~= Seq::<PolicyView>::empty());
    while i < keys.len()
        invariant
            i <= keys@.len(),
            lv == keyed_views(settings@),
            kv == keys_view(keys@),
            kv == rule_keys(lv),
            policies_of(lv, kv.take(i as int)) == Ok::<Seq<PolicyView>, IntErrorKind>(policies_view(out@)),
        decreases keys@.len() - i,
    {
        let ghost t = kv.take(i + 1);
        assert(t.drop_last() =~= kv.take(i as int));
        assert(t.last() == key_view(keys@[i as int]));
        match group_policy_exec(settings, &keys[i]) {
            Err(e) => {
                assert(policies_of(lv, t) == Err::<Seq<PolicyView>, IntErrorKind>(e));
                proof {
                    lemma_policies_error(lv, kv, i as int + 1);
                }
                assert(kv.take(kv.len() as int) =~= kv);
                return Err(crate::num::int_error_message(e));
            },
            Ok(None) => {},
            Ok(Some(p)) => {
                let ghost before = out@;
                out.push(p);
                assert(policies_view(out@) =~= policies_view(before).push(p@));
            },
        }
        i = i + 1;
    }
    assert(kv.take(i as int) =~= kv);
    Ok(out)
}

fn key_counts_exec(k: &(String, String, String)) -> (r: bool)
    ensures
        r == key_counts(key_view(*k)),
{
    match parse_uint_chars(chars_of(k.0.as_str()).as_slice(), 10, 0xffff_ffff) {
        Ok(n) => level_exec(n).is_some() && rule_type_exec(k.1.as_str()).is_some(),
        Err(_) => false,
    }
}

/// A setting with its key and, for the last change of a rule that is read,
/// chrono's time for its file time.
fn keyed_setting(l: &LocalGroupPolicyObject) -> (r: KeyedSetting)
    requires
        reads_filetime(l@) ==> crate::utils::filetime_after_epoch(l@.action->Qword_0 as u64),
    ensures
        r@ == keyed(l@),
{
    let key = rule_key_exec(l);
    let mut time: Option<(i64, u32)> = None;
    if let Some(k) = &key {
        if key_counts_exec(k) && str_eq(l.value_name.as_str(), "LastModified") {
            if let LgpoAction::Qword(ft) = &l.action {
                let secs = crate::utils::filetime_to_epoch(*ft as u64);
                time = utc_from_timestamp(secs);
            }
        }
    }
    KeyedSetting { setting: l.copy(), key, time }
}

/// The rules that the policy's settings hold.
pub fn parse_lgpos(lgpos: &Vec<LocalGroupPolicyObject>) -> (r: Result<Vec<SoftwareRestrictionPolicy>, String>)
    requires
        parse_readable(lgpos.deep_view()),
    ensures
        match parse_lgpos_spec(lgpos.deep_view()) {
            Ok(ps) => r is Ok && policies_view(r->Ok_0@) == ps,
            Err(e) => r is Err && r->Err_0@ == e,
        },
{
    let ghost lv = lgpos.deep_view();
    let mut settings: Vec<KeyedSetting> = Vec::new();
    let mut i: usize = 0;
    while i < lgpos.len()
        invariant
            i <= lgpos@.len(),
            lv == lgpos.deep_view(),
            parse_readable(lv),
            settings@.len() == i,
            forall|j: int| 0 <= j < i ==> (#[trigger] settings@[j])@ == keyed(lv[j]),
        decreases lgpos@.len() - i,
    {
        assert(lv[i as int] == lgpos@[i as int]@);
        assert(reads_filetime(lv[i as int]) ==> crate::utils::filetime_after_epoch(
            lv[i as int].action->Qword_0 as u64,
        ));
        settings.push(keyed_setting(&lgpos[i]));
        i = i + 1;
    }
    assert(keyed_views(settings@) =~= keyed_all(lv));
    assert forall|j: int| 0 <= j < settings@.len() && #[trigger] keyed_guid_read(keyed_views(settings@)[j]) implies guid_valid(
        trim_braces(keyed_guid(keyed_views(settings@)[j])),
    ) by {
        assert(keyed_views(settings@)[j] == keyed(lv[j]));
        assert(reads_guid(lv[j]));
    }
    rules_from_settings(&settings)
}

/// The rules that the policy's settings hold, where reading them does not
/// panic; `None` where a read rule's GUID or last change does not read
/// (where `parse_lgpos` panics).
pub fn try_parse_lgpos(lgpos: &Vec<LocalGroupPolicyObject>) -> (r: Option<
    Result<Vec<SoftwareRestrictionPolicy>, String>,
>)
    ensures
        r is None <==> !parse_readable(lgpos.deep_view()),
        r matches Some(res) ==> match parse_lgpos_spec(lgpos.deep_view()) {
            Ok(ps) => res is Ok && policies_view(res->Ok_0@) == ps,
            Err(e) => res is Err && res->Err_0@ == e,
        },
{
    if lgpos_readable(lgpos) {
        Some(parse_lgpos(lgpos))
    } else {
        None
    }
}

/// Once the rules of a prefix of the keys fail, the rules of all of them do.
proof fn lemma_policies_error(ls: Seq<KeyedView>, ks: Seq<(Seq<char>, Seq<char>, Seq<char>)>, n: int)
    requires
        0 <= n <= ks.len(),
        policies_of(ls, ks.take(n)) is Err,
    ensures
        policies_of(ls, ks) == policies_of(ls, ks.take(n)),
    decreases ks.len() - n,
{
    if n < ks.len() {
        let t = ks.take(n + 1);
        assert(t.drop_last() =~= ks.take(n));
        lemma_policies_error(ls, ks, n + 1);
    } else {
        assert(ks.take(n) =~= ks);
    }
}

// ------------------------------------------------------------------
// Writing the rules to the policy
// ------------------------------------------------------------------

/// The braced GUID of a rule's key, in upper case as `windows` prints a
/// GUID; a rule without one takes the fresh one given for it.
pub open spec fn guid_text(p: PolicyView, fresh: Seq<char>) -> Seq<char> {
    "{"@ + ascii_upper(
        match p.lgpo_guid {
            Some(g) => g,
            None => fresh,
        },
    ) + "}"@
}

/// The key of a rule's settings.
pub open spec fn rule_base(p: PolicyView, fresh: Seq<char>) -> Seq<char> {
    code_identifiers() + "\\"@ + decimal(security_level_number(p.security_level) as nat) + "\\"@ + rule_type_name(
        p.rule_type,
    ) + "\\"@ + guid_text(p, fresh)
}

/// The target setting of a rule whose target fits its type.
pub open spec fn item_data(p: PolicyView) -> Option<LgpoActionView> {
    match (p.rule_type, p.target) {
        (RuleType::Paths, TargetView::Path(path)) => Some(LgpoActionView::ExSz(path)),
        (RuleType::UrlZones, TargetView::UrlZone(z)) => Some(LgpoActionView::Dword(url_zone_number(z))),
        _ => None,
    }
}

/// A rule that is written: of paths or zones, that should exist, and
/// whose target fits its type.
pub open spec fn written(p: PolicyView) -> bool {
    p.rule_type != RuleType::Hashes && p.state != State::NotExists && item_data(p) is Some
}

/// The time a written rule records as its last change.
pub open spec fn change_time(p: PolicyView, now: (i64, u32)) -> (i64, u32) {
    match p.last_modified {
        Some(t) => t,
        None => now,
    }
}

/// The settings of one rule: its target, its description (with the tool's
/// prefix), its last change as a file time, and its flags.
pub open spec fn policy_settings(p: PolicyView, fresh: Seq<char>, now: (i64, u32)) -> Seq<LgpoView> {
    if !written(p) {
        seq![]
    } else {
        let base = rule_base(p, fresh);
        let t = change_time(p, now);
        seq![computer_setting(base, "ItemData"@, item_data(p)->0)] + (match p.description {
            Some(d) => seq![computer_setting(base, "Description"@, LgpoActionView::Sz(description_prefix() + d))],
            None => seq![],
        }) + seq![
            computer_setting(
                base,
                "LastModified"@,
                LgpoActionView::Qword(((t.0 + 11_644_473_600) * 10_000_000 + t.1 / 100) as u128),
            ),
            computer_setting(base, "SaferFlags"@, LgpoActionView::Dword(0)),
        ]
    }
}

/// The settings of the rules, in order.
pub open spec fn convert_spec(ps: Seq<PolicyView>, fresh: Seq<Seq<char>>, now: (i64, u32)) -> Seq<LgpoView>
    decreases ps.len(),
{
    if ps.len() == 0 {
        seq![]
    } else {
        convert_spec(ps.drop_last(), fresh.drop_last(), now) + policy_settings(ps.last(), fresh.last(), now)
    }
}

/// The rules can be written: one fresh GUID for each, and a last change
/// that a file time holds for each written one.
pub open spec fn convertible(ps: Seq<PolicyView>, fresh: Seq<Seq<char>>, now: (i64, u32)) -> bool {
    &&& fresh.len() == ps.len()
    &&& forall|i: int|
        0 <= i < ps.len() && #[trigger] written(ps[i]) ==> crate::utils::filetime_representable(
            change_time(ps[i], now).0,
        )
}

fn guid_text_exec(p: &SoftwareRestrictionPolicy, fresh: &String) -> (r: String)
    ensures
        r@ == guid_text(p@, fresh@),
{
    let g = match &p.lgpo_guid {
        Some(g) => g,
        None => fresh,
    };
    let up = crate::text::ascii_upper_chars(chars_of(g.as_str()).as_slice());
    let u = string_of(up.as_slice());
    cat3("{", u.as_str(), "}")
}

fn setting(base: &String, name: &str, action: LgpoAction) -> (r: LocalGroupPolicyObject)
    ensures
        r@ == computer_setting(base@, name@, action@),
{
    computer(copy_string(base), name, action)
}

fn policy_settings_exec(p: &SoftwareRestrictionPolicy, fresh: &String, now: (i64, u32)) -> (r: Vec<
    LocalGroupPolicyObject,
>)
    requires
        written(p@) ==> crate::utils::filetime_representable(change_time(p@, now).0),
    ensures
        r.deep_view() == policy_settings(p@, fresh@, now),
{
    let mut out: Vec<LocalGroupPolicyObject> = Vec::new();
    let guid = guid_text_exec(p, fresh);
    let level: u32 = match p.security_level {
        SecurityLevel::Disallowed => 0,
        SecurityLevel::BasicUser => 131072,
        SecurityLevel::Unrestricted => 262144,
    };
    let rt = match p.rule_type {
        RuleType::Paths => "Paths",
        RuleType::UrlZones => "UrlZones",
        RuleType::Hashes => return out,
    };
    let ci = cat2("Software\\Policies\\Microsoft\\Windows\\Safer\\CodeIdentifiers", "\\");
    let lv = string_of(crate::num::fmt_decimal(level as u128).as_slice());
    let a = cat3(ci.as_str(), lv.as_str(), "\\");
    let b = cat3(a.as_str(), rt, "\\");
    let base = cat2(b.as_str(), guid.as_str());
    assert(base@ =~= rule_base(p@, fresh@));
    if p.state == State::NotExists {
        return out;
    }
    let item = match (&p.rule_type, &p.target) {
        (RuleType::Paths, Target::Path(path)) => LgpoAction::ExSz(copy_string(path)),
        (RuleType::UrlZones, Target::UrlZone(z)) => LgpoAction::Dword(
            match z {
                UrlZones::LocalMachine => 0,
                UrlZones::LocalIntranet => 1,
                UrlZones::TrustedSites => 2,
                UrlZones::Internet => 3,
                UrlZones::RestrictedSites => 4,
            },
        ),
        _ => return out,
    };
    out.push(setting(&base, "ItemData", item));
    if let Some(d) = &p.description {
        out.push(setting(&base, "Description", LgpoAction::Sz(cat2("[promethee] ", d.as_str()))));
    }
    let t = match p.last_modified {
        Some(t) => t,
        None => now,
    };
    let ft = crate::utils::datetime_to_filetime(t.0, t.1);
    out.push(setting(&base, "LastModified", LgpoAction::Qword(ft)));
    out.push(setting(&base, "SaferFlags", LgpoAction::Dword(0)));
    assert(out.deep_view() =~= policy_settings(p@, fresh@, now));
    out
}

fn append_settings(out: &mut Vec<LocalGroupPolicyObject>, more: Vec<LocalGroupPolicyObject>)
    ensures
        final(out).deep_view() == old(out).deep_view() + more.deep_view(),
{
    let ghost start = out.deep_view();
    let mut i: usize = 0;
    assert(more.deep_view().take(0) =~= Seq::<LgpoView>::empty());
    assert(start + Seq::<LgpoView>::empty() =~= start);
    while i < more.len()
        invariant
            i <= more@.len(),
            out.deep_view() == start + more.deep_view().take(i as int),
        decreases more@.len() - i,
    {
        let ghost before = out.deep_view();
        out.push(more[i].copy());
        assert(out.deep_view() =~= before.push(more@[i as int]@));
        assert(more.deep_view().take(i + 1) =~= more.deep_view().take(i as int).push(more@[i as int]@));
        i = i + 1;
    }
    assert(more.deep_view().take(i as int) =~= more.deep_view());
}

fn written_exec(p: &SoftwareRestrictionPolicy) -> (r: bool)
    ensures
        r == written(p@),
{
    p.rule_type != RuleType::Hashes && p.state != State::NotExists && match (&p.rule_type, &p.target) {
        (RuleType::Paths, Target::Path(_)) => true,
        (RuleType::UrlZones, Target::UrlZone(_)) => true,
        _ => false,
    }
}

/// Whether the rules can be written: one fresh GUID for each, and the
/// last change of each written rule representable as a file time.
pub fn convertible_exec(policies: &Vec<SoftwareRestrictionPolicy>, fresh: &Vec<String>, now: (i64, u32)) -> (r: bool)
    ensures
        r == convertible(policies_view(policies@), fresh.deep_view(), now),
{
    let ghost ps = policies_view(policies@);
    if policies.len() != fresh.len() {
        assert(fresh.deep_view().len() != ps.len());
        return false;
    }
    let mut i: usize = 0;
    while i < policies.len()
        invariant
            i <= policies@.len(),
            ps == policies_view(policies@),
            forall|j: int|
                0 <= j < i && #[trigger] written(ps[j]) ==> crate::utils::filetime_representable(
                    change_time(ps[j], now).0,
                ),
        decreases policies@.len() - i,
    {
        assert(ps[i as int] == policies@[i as int]@);
        if written_exec(&policies[i]) {
            let secs = match policies[i].last_modified {
                Some(t) => t.0,
                None => now.0,
            };
            if secs < 0 || (secs as u128 + 11_644_473_600) * 10_000_000 > 0xffff_ffff_ffff_ffff {
                return false;
            }
        }
        i = i + 1;
    }
    true
}

/// The settings of the rules: `fresh` holds
/// a new GUID for each rule, used where the rule has none, and `now` is
/// the time recorded for rules without a last change.
pub fn convert_policies_to_lgpos(
    policies: &Vec<SoftwareRestrictionPolicy>,
    fresh: &Vec<String>,
    now: (i64, u32),
) -> (r: Vec<LocalGroupPolicyObject>)
    requires
        convertible(policies_view(policies@), fresh.deep_view(), now),
    ensures
        r.deep_view() == convert_spec(policies_view(policies@), fresh.deep_view(), now),
{
    let ghost pv = policies_view(policies@);
    let ghost fv = fresh.deep_view();
    let mut out: Vec<LocalGroupPolicyObject> = Vec::new();
    let mut i: usize = 0;
    assert(pv.take(0) =~= Seq::<PolicyView>::empty());
    while i < policies.len()
        invariant
            i <= policies@.len(),
            pv == policies_view(policies@),
            fv == fresh.deep_view(),
            convertible(pv, fv, now),
            out.deep_view() == convert_spec(pv.take(i as int), fv.take(i as int), now),
        decreases policies@.len() - i,
    {
        assert(pv.take(i + 1).drop_last() =~= pv.take(i as int));
        assert(fv.take(i + 1).drop_last() =~= fv.take(i as int));
        assert(pv.take(i + 1).last() == policies@[i as int]@);
        assert(fv.take(i + 1).last() == fresh@[i as int]@);
        assert(written(pv[i as int]) ==> crate::utils::filetime_representable(change_time(pv[i as int], now).0));
        let more = policy_settings_exec(&policies[i], &fresh[i], now);
        append_settings(&mut out, more);
        i = i + 1;
    }
    assert(pv.take(i as int) =~= pv);
    assert(fv.take(i as int) =~= fv);
    out
}

/// The pattern of the key of a rule's settings.
pub open spec fn rule_base_pattern() -> Seq<char> {
    "^(Software\\\\Policies\\\\Microsoft\\\\Windows\\\\Safer\\\\CodeIdentifiers\\\\\\d+\\\\(Paths|UrlZones)\\\\\\{[0-9A-Fa-f\\-]+\\})"@
}

/// The key to clear for an old setting of a rule, with its configuration.
pub open spec fn clear_key(l: LgpoView) -> Option<(ConfigurationView, Seq<char>)> {
    match regex_captures(rule_base_pattern(), l.registry_key) {
        Some(c) => if c.len() >= 2 && c[1] is Some {
            Some((l.configuration, c[1]->0))
        } else {
            None
        },
        None => None,
    }
}

/// The key to clear for a setting: that of an old setting of a rule, none
/// for any other setting.
pub open spec fn captured_clear_key(l: LgpoView) -> Option<(ConfigurationView, Seq<char>)> {
    if is_safer_rule_key(l.registry_key) {
        clear_key(l)
    } else {
        None
    }
}

/// The keys to clear for the old settings of rules, each once, in the
/// order they first come; `cs` holds the key found for each setting.
pub open spec fn clear_keys(ls: Seq<LgpoView>, cs: Seq<Option<(ConfigurationView, Seq<char>)>>) -> Seq<
    (ConfigurationView, Seq<char>),
>
    decreases ls.len(),
{
    if ls.len() == 0 {
        seq![]
    } else {
        let ks = clear_keys(ls.drop_last(), cs.drop_last());
        if is_safer_rule_key(ls.last().registry_key) {
            match cs.last() {
                Some(k) => if ks.contains(k) {
                    ks
                } else {
                    ks.push(k)
                },
                None => ks,
            }
        } else {
            ks
        }
    }
}

pub open spec fn clear_setting(k: (ConfigurationView, Seq<char>)) -> LgpoView {
    LgpoView { configuration: k.0, registry_key: k.1, value_name: "*"@, action: LgpoActionView::Clear }
}

/// What updating the policy with the rules makes of its settings, given
/// the key to clear found for each setting: the settings of no rule stay;
/// each old rule's key is cleared; where rules are written, the needed
/// settings that are missing then are created, else the needed settings
/// are cleared; the rules' settings follow.
pub open spec fn update_settings_spec(
    lgpos: Seq<LgpoView>,
    cs: Seq<Option<(ConfigurationView, Seq<char>)>>,
    rules: Seq<PolicyView>,
    fresh: Seq<Seq<char>>,
    now: (i64, u32),
) -> Seq<LgpoView> {
    let safer = convert_spec(rules, fresh, now);
    let kept = lgpos.filter(|l: LgpoView| !is_safer_rule_key(l.registry_key));
    let clears = clear_keys(lgpos, cs).map_values(|k: (ConfigurationView, Seq<char>)| clear_setting(k));
    let base = kept + clears;
    if safer.len() == 0 {
        base + minimal_settings().map_values(
            |m: LgpoView| clear_setting((ConfigurationView::Computer, m.registry_key)),
        ) + safer
    } else {
        put_settings(base, missing_settings(base)) + safer
    }
}

/// What updating the policy with the rules makes of its settings.
pub open spec fn update_safer_spec(
    lgpos: Seq<LgpoView>,
    rules: Seq<PolicyView>,
    fresh: Seq<Seq<char>>,
    now: (i64, u32),
) -> Seq<LgpoView> {
    update_settings_spec(lgpos, lgpos.map_values(|l: LgpoView| captured_clear_key(l)), rules, fresh, now)
}

fn clear_key_exec(l: &LocalGroupPolicyObject) -> (r: Option<(Configuration, String)>)
    ensures
        match r {
            Some(k) => clear_key(l@) == Some((k.0@, k.1@)),
            None => clear_key(l@) is None,
        },
{
    let c = match captures("^(Software\\\\Policies\\\\Microsoft\\\\Windows\\\\Safer\\\\CodeIdentifiers\\\\\\d+\\\\(Paths|UrlZones)\\\\\\{[0-9A-Fa-f\\-]+\\})", l.registry_key.as_str()) {
        Some(c) => c,
        None => return None,
    };
    if c.len() < 2 {
        return None;
    }
    assert(opt_view(c@[1]) == captures_view(Some(c))->0[1]);
    match &c[1] {
        Some(k) => Some((l.configuration.copy(), copy_string(k))),
        None => None,
    }
}

pub open spec fn ckeys_view(v: Seq<(Configuration, String)>) -> Seq<(ConfigurationView, Seq<char>)> {
    v.map_values(|k: (Configuration, String)| (k.0@, k.1@))
}

fn contains_ckey(v: &Vec<(Configuration, String)>, k: &(Configuration, String)) -> (r: bool)
    ensures
        r == ckeys_view(v@).contains((k.0@, k.1@)),
{
    let mut i: usize = 0;
    while i < v.len()
        invariant
            i <= v@.len(),
            forall|j: int| 0 <= j < i ==> ckeys_view(v@)[j] != (k.0@, k.1@),
        decreases v@.len() - i,
    {
        if v[i].0.same(&k.0) && str_eq(v[i].1.as_str(), k.1.as_str()) {
            assert(ckeys_view(v@)[i as int] == (k.0@, k.1@));
            return true;
        }
        i = i + 1;
    }
    false
}

pub open spec fn ckeys_opt_view(v: Seq<Option<(Configuration, String)>>) -> Seq<
    Option<(ConfigurationView, Seq<char>)>,
> {
    v.map_values(
        |k: Option<(Configuration, String)>|
            match k {
                Some(k) => Some((k.0@, k.1@)),
                None => None,
            },
    )
}

/// Brings the policy's settings in line with the rules, given the key to
/// clear found for each setting (where it is an old setting of a rule).
pub fn update_safer_with_keys(
    lgpos: &mut Vec<LocalGroupPolicyObject>,
    found: &Vec<Option<(Configuration, String)>>,
    rules: &Vec<SoftwareRestrictionPolicy>,
    fresh: &Vec<String>,
    now: (i64, u32),
)
    requires
        found@.len() == old(lgpos)@.len(),
        convertible(policies_view(rules@), fresh.deep_view(), now),
    ensures
        final(lgpos).deep_view() == update_settings_spec(
            old(lgpos).deep_view(),
            ckeys_opt_view(found@),
            policies_view(rules@),
            fresh.deep_view(),
            now,
        ),
{
    let ghost lv = lgpos.deep_view();
    let ghost cv = ckeys_opt_view(found@);
    let safer = convert_policies_to_lgpos(rules, fresh, now);
    let mut kept: Vec<LocalGroupPolicyObject> = Vec::new();
    let mut keys: Vec<(Configuration, String)> = Vec::new();
    let mut i: usize = 0;
    assert(lv.take(0) =~= Seq::<LgpoView>::empty());
    assert(ckeys_view(keys@) =~= Seq::<(ConfigurationView, Seq<char>)>::empty());
    while i < lgpos.len()
        invariant
            i <= lgpos@.len(),
            found@.len() == lgpos@.len(),
            lv == lgpos.deep_view(),
            cv == ckeys_opt_view(found@),
            kept.deep_view() == lv.take(i as int).filter(|l: LgpoView| !is_safer_rule_key(l.registry_key)),
            ckeys_view(keys@) == clear_keys(lv.take(i as int), cv.take(i as int)),
        decreases lgpos@.len() - i,
    {
        let ghost t = lv.take(i + 1);
        let ghost tc = cv.take(i + 1);
        assert(t =~= lv.take(i as int).push(lv[i as int]));
        assert(t.drop_last() =~= lv.take(i as int));
        assert(tc.drop_last() =~= cv.take(i as int));
        assert(lv[i as int] == lgpos@[i as int]@);
        assert(tc.last() == cv[i as int]);
        proof {
            lv.take(i as int).lemma_filter_push(lv[i as int], |l: LgpoView| !is_safer_rule_key(l.registry_key));
        }
        if is_safer_rule_lgpo(&lgpos[i]) {
            match &found[i] {
                Some(k) => {
                    if !contains_ckey(&keys, k) {
                        let ghost before = keys@;
                        keys.push((k.0.copy(), copy_string(&k.1)));
                        assert(ckeys_view(keys@) =~= ckeys_view(before).push((k.0@, k.1@)));
                    }
                },
                None => {},
            }
        } else {
            kept.push(lgpos[i].copy());
        }
        i = i + 1;
    }
    assert(lv.take(i as int) =~= lv);
    assert(cv.take(i as int) =~= cv);
    let mut result = kept;
    let ghost kv = ckeys_view(keys@);
    let mut m: usize = 0;
    let ghost base = result.deep_view();
    assert(kv.take(0).map_values(|k: (ConfigurationView, Seq<char>)| clear_setting(k)) =~= Seq::<LgpoView>::empty());
    assert(base + Seq::<LgpoView>::empty() =~= base);
    while m < keys.len()
        invariant
            m <= keys@.len(),
            kv == ckeys_view(keys@),
            result.deep_view() == base + kv.take(m as int).map_values(
                |k: (ConfigurationView, Seq<char>)| clear_setting(k),
            ),
        decreases keys@.len() - m,
    {
        let ghost before = result.deep_view();
        result.push(
            LocalGroupPolicyObject {
                configuration: keys[m].0.copy(),
                registry_key: copy_string(&keys[m].1),
                value_name: lit("*"),
                action: LgpoAction::Clear,
            },
        );
        assert(kv.take(m + 1).map_values(|k: (ConfigurationView, Seq<char>)| clear_setting(k)) =~= kv.take(
            m as int,
        ).map_values(|k: (ConfigurationView, Seq<char>)| clear_setting(k)).push(clear_setting(kv[m as int])));
        assert(result.deep_view() =~= before.push(clear_setting(kv[m as int])));
        m = m + 1;
    }
    assert(kv.take(m as int) =~= kv);
    if safer.len() > 0 {
        let missing = get_missing_lgpo(&result);
        if missing.len() > 0 {
            let _ = create_missing_lgpo(&mut result, missing);
        } else {
            assert(missing.deep_view() =~= Seq::<LgpoView>::empty());
        }
    } else {
        let minimal = safer_minimal_registry_keys();
        let ghost mv = minimal.deep_view();
        let ghost base2 = result.deep_view();
        let mut q: usize = 0;
        assert(mv.take(0).map_values(
            |x: LgpoView| clear_setting((ConfigurationView::Computer, x.registry_key)),
        ) =~= Seq::<LgpoView>::empty());
        assert(base2 + Seq::<LgpoView>::empty() =~= base2);
        while q < minimal.len()
            invariant
                q <= minimal@.len(),
                mv == minimal.deep_view(),
                result.deep_view() == base2 + mv.take(q as int).map_values(
                    |x: LgpoView| clear_setting((ConfigurationView::Computer, x.registry_key)),
                ),
            decreases minimal@.len() - q,
        {
            let ghost before = result.deep_view();
            result.push(
                LocalGroupPolicyObject {
                    configuration: Configuration::Computer,
                    registry_key: copy_string(&minimal[q].registry_key),
                    value_name: lit("*"),
                    action: LgpoAction::Clear,
                },
            );
            assert(mv.take(q + 1).map_values(
                |x: LgpoView| clear_setting((ConfigurationView::Computer, x.registry_key)),
            ) =~= mv.take(q as int).map_values(
                |x: LgpoView| clear_setting((ConfigurationView::Computer, x.registry_key)),
            ).push(clear_setting((ConfigurationView::Computer, mv[q as int].registry_key))));
            assert(result.deep_view() =~= before.push(
                clear_setting((ConfigurationView::Computer, mv[q as int].registry_key)),
            ));
            q = q + 1;
        }
        assert(mv.take(q as int) =~= mv);
    }
    let ghost before_safer = result.deep_view();
    append_settings(&mut result, safer);
    *lgpos = result;
    assert(lgpos.deep_view() =~= update_settings_spec(lv, cv, policies_view(rules@), fresh.deep_view(), now));
}

/// Brings the policy's settings in line with the rules.
pub fn update_safer(
    lgpos: &mut Vec<LocalGroupPolicyObject>,
    rules: &Vec<SoftwareRestrictionPolicy>,
    fresh: &Vec<String>,
    now: (i64, u32),
)
    requires
        convertible(policies_view(rules@), fresh.deep_view(), now),
    ensures
        final(lgpos).deep_view() == update_safer_spec(old(lgpos).deep_view(), policies_view(rules@), fresh.deep_view(), now),
{
    let ghost lv = lgpos.deep_view();
    let mut found: Vec<Option<(Configuration, String)>> = Vec::new();
    let mut i: usize = 0;
    while i < lgpos.len()
        invariant
            i <= lgpos@.len(),
            lv == lgpos.deep_view(),
            found@.len() == i,
            forall|j: int| 0 <= j < i ==> ckeys_opt_view(found@)[j] == captured_clear_key(lv[j]),
        decreases lgpos@.len() - i,
    {
        assert(lv[i as int] == lgpos@[i as int]@);
        let k = if is_safer_rule_lgpo(&lgpos[i]) {
            clear_key_exec(&lgpos[i])
        } else {
            None
        };
        let ghost before = found@;
        found.push(k);
        assert(ckeys_opt_view(found@) =~= ckeys_opt_view(before).push(captured_clear_key(lv[i as int])));
        i = i + 1;
    }
    assert(ckeys_opt_view(found@) =~= lv.map_values(|l: LgpoView| captured_clear_key(l)));
    update_safer_with_keys(lgpos, &found, rules, fresh, now);
}

// ------------------------------------------------------------------
// Applying a rule to the rules
// ------------------------------------------------------------------

/// The first rule with this target.
pub open spec fn find_target(v: Seq<PolicyView>, t: TargetView) -> Option<int>
    decreases v.len(),
{
    if v.len() == 0 {
        None
    } else {
        match find_target(v.drop_last(), t) {
            Some(i) => Some(i),
            None => if v.last().target == t {
                Some(v.len() - 1)
            } else {
                None
            },
        }
    }
}

proof fn lemma_find_target(v: Seq<PolicyView>, t: TargetView)
    ensures
        find_target(v, t) matches Some(i) ==> 0 <= i < v.len() && v[i].target == t && forall|j: int|
            0 <= j < i ==> v[j].target != t,
        find_target(v, t) is None ==> forall|j: int| 0 <= j < v.len() ==> v[j].target != t,
    decreases v.len(),
{
    if v.len() > 0 {
        lemma_find_target(v.drop_last(), t);
        assert(forall|j: int| 0 <= j < v.len() - 1 ==> v.drop_last()[j] == v[j]);
    }
}

/// A rule's current state, as a raw method: the first rule with its
/// target, else the rule itself as one that does not exist.
pub open spec fn safer_current(v: Seq<PolicyView>, p: PolicyView) -> RawView {
    match find_target(v, p.target) {
        Some(i) => safer_to_raw(v[i]),
        None => safer_to_raw(PolicyView { state: State::NotExists, ..p }),
    }
}

/// The rules after a rule is applied: it replaces the first rule with its
/// target where that one exists, else it is added at the end.
pub open spec fn safer_execute(v: Seq<PolicyView>, p: PolicyView) -> Seq<PolicyView> {
    match find_target(v, p.target) {
        Some(i) => if v[i].state == State::NotExists {
            v.push(p)
        } else {
            v.update(i, p)
        },
        None => v.push(p),
    }
}

fn target_eq(a: &Target, b: &Target) -> (r: bool)
    ensures
        r == (a@ == b@),
{
    match (a, b) {
        (Target::Path(x), Target::Path(y)) => str_eq(x.as_str(), y.as_str()),
        (Target::UrlZone(x), Target::UrlZone(y)) => *x == *y,
        _ => false,
    }
}

fn find_target_exec(v: &Vec<SoftwareRestrictionPolicy>, t: &Target) -> (r: Option<usize>)
    ensures
        match r {
            Some(i) => i < v@.len() && find_target(policies_view(v@), t@) == Some(i as int),
            None => find_target(policies_view(v@), t@) is None,
        },
{
    let ghost pv = policies_view(v@);
    let mut i: usize = 0;
    assert(pv.take(0) =~= Seq::<PolicyView>::empty());
    while i < v.len()
        invariant
            i <= v@.len(),
            pv == policies_view(v@),
            find_target(pv.take(i as int), t@) is None,
        decreases v@.len() - i,
    {
        let ghost tk = pv.take(i + 1);
        assert(tk.drop_last() =~= pv.take(i as int));
        assert(tk.last() == v@[i as int]@);
        if target_eq(&v[i].target, t) {
            proof {
                lemma_find_prefix(pv, t@, i as int + 1);
            }
            return Some(i);
        }
        i = i + 1;
    }
    assert(pv.take(i as int) =~= pv);
    None
}

/// Where a prefix already has the target, the whole sequence finds it
/// there.
proof fn lemma_find_prefix(v: Seq<PolicyView>, t: TargetView, n: int)
    requires
        0 <= n <= v.len(),
        find_target(v.take(n), t) is Some,
    ensures
        find_target(v, t) == find_target(v.take(n), t),
    decreases v.len() - n,
{
    if n < v.len() {
        assert(v.take(n + 1).drop_last() =~= v.take(n));
        lemma_find_prefix(v, t, n + 1);
    } else {
        assert(v.take(n) =~= v);
    }
}

impl SoftwareRestrictionPolicy {
    /// This rule's current state among the rules, as a raw method.
    pub fn current_value(&self, rules: &Vec<SoftwareRestrictionPolicy>) -> (r: RawMethod)
        ensures
            r@ == safer_current(policies_view(rules@), self@),
    {
        match find_target_exec(rules, &self.target) {
            Some(i) => {
                assert(policies_view(rules@)[i as int] == rules@[i as int]@);
                rules[i].to_raw(false)
            },
            None => {
                let mut p = self.copy();
                p.state = State::NotExists;
                p.to_raw(false)
            },
        }
    }

    /// Applies this rule to the rules.
    pub fn execute(&self, rules: &mut Vec<SoftwareRestrictionPolicy>)
        ensures
            policies_view(final(rules)@) == safer_execute(policies_view(old(rules)@), self@),
    {
        let ghost before = policies_view(rules@);
        match find_target_exec(rules, &self.target) {
            Some(i) => {
                assert(before[i as int] == rules@[i as int]@);
                if rules[i].state == State::NotExists {
                    rules.push(self.copy());
                    assert(policies_view(rules@) =~= before.push(self@));
                } else {
                    rules.set(i, self.copy());
                    assert(policies_view(rules@) =~= before.update(i as int, self@));
                }
            },
            None => {
                rules.push(self.copy());
                assert(policies_view(rules@) =~= before.push(self@));
            },
        }
    }
}

/// After a rule is applied, reading it back gives that rule, unless a rule
/// of its target that does not exist comes first (that one is still found).
pub proof fn lemma_execute_then_current(v: Seq<PolicyView>, p: PolicyView)
    requires
        find_target(v, p.target) matches Some(i) ==> v[i].state != State::NotExists,
    ensures
        safer_current(safer_execute(v, p), p) == safer_to_raw(p),
{
    lemma_find_target(v, p.target);
    let after = safer_execute(v, p);
    lemma_find_target(after, p.target);
    match find_target(v, p.target) {
        Some(i) => {
            assert(after[i] == p);
            assert(forall|j: int| 0 <= j < i ==> after[j] == v[j]);
            if find_target(after, p.target) != Some(i) {
                let k = find_target(after, p.target)->0;
                assert(k < i || k > i);
            }
        },
        None => {
            assert(after[v.len() as int] == p);
            assert(forall|j: int| 0 <= j < v.len() ==> after[j] == v[j]);
        },
    }
}

/// None of the settings that the rules need belongs to a rule, so
/// updating the policy keeps them.
pub proof fn lemma_minimal_not_rules()
    ensures
        forall|i: int|
            0 <= i < minimal_settings().len() ==> !is_safer_rule_key(#[trigger] minimal_settings()[i].registry_key),
{
    reveal_strlit("Software\\Policies\\Microsoft\\SystemCertificates\\");
    reveal_strlit("Software\\Policies\\Microsoft\\Windows\\Safer\\CodeIdentifiers");
    let certs = "Software\\Policies\\Microsoft\\SystemCertificates\\"@;
    let ci = code_identifiers();
    let pre = ci + "\\"@;
    assert forall|i: int| 0 <= i < minimal_settings().len() implies !is_safer_rule_key(
        #[trigger] minimal_settings()[i].registry_key,
    ) by {
        let k = minimal_settings()[i].registry_key;
        if i < 6 {
            assert(k.take(certs.len() as int) =~= certs);
            if starts_with(k, pre) {
                assert(k[28] == pre[28]);
                assert(certs[28] != ci[28]);
            }
        }
    }
}

/// The settings of one rule, each with the key and time found for it.
pub open spec fn keyed_with(
    ls: Seq<LgpoView>,
    key: (Seq<char>, Seq<char>, Seq<char>),
    t: Option<(i64, u32)>,
) -> Seq<KeyedView> {
    ls.map_values(|l: LgpoView| KeyedView { setting: l, key: Some(key), time: t })
}

/// The key that a rule's settings are written under: its level's number,
/// its type and its braced GUID.
pub open spec fn written_key(p: PolicyView, fresh: Seq<char>) -> (Seq<char>, Seq<char>, Seq<char>) {
    (decimal(security_level_number(p.security_level) as nat), rule_type_name(p.rule_type), guid_text(p, fresh))
}

/// Settings that all carry one key give that key alone.
proof fn lemma_rule_keys_single(ks: Seq<KeyedView>, key: (Seq<char>, Seq<char>, Seq<char>))
    requires
        ks.len() > 0,
        forall|i: int| 0 <= i < ks.len() ==> (#[trigger] ks[i]).key == Some(key),
    ensures
        rule_keys(ks) == seq![key],
    decreases ks.len(),
{
    assert(ks.last() == ks[ks.len() - 1]);
    if ks.len() == 1 {
        assert(ks.drop_last() =~= Seq::<KeyedView>::empty());
        assert(rule_keys(ks.drop_last()) == Seq::<(Seq<char>, Seq<char>, Seq<char>)>::empty());
        assert(!Seq::<(Seq<char>, Seq<char>, Seq<char>)>::empty().contains(key));
        assert(Seq::<(Seq<char>, Seq<char>, Seq<char>)>::empty().push(key) =~= seq![key]);
    } else {
        assert forall|i: int| 0 <= i < ks.drop_last().len() implies (#[trigger] ks.drop_last()[i]).key == Some(key) by {
            assert(ks.drop_last()[i] == ks[i]);
        }
        lemma_rule_keys_single(ks.drop_last(), key);
        assert(seq![key].contains(key)) by {
            assert(seq![key][0] == key);
        }
    }
}

/// What a written rule reads back as, from the key it was written under
/// and the time found for its last change.
pub open spec fn read_back_policy(p: PolicyView, fresh: Seq<char>, t: Option<(i64, u32)>) -> PolicyView {
    PolicyView {
        target: p.target,
        security_level: p.security_level,
        rule_type: p.rule_type,
        description: match p.description {
            Some(d) => Some(description_prefix() + d),
            None => None,
        },
        last_modified: t,
        lgpo_guid: Some(trim_braces(guid_text(p, fresh))),
        state: State::Exists,
    }
}

/// The settings of one written rule, with its key: they all carry it, and
/// they give the rule it reads back as.
proof fn lemma_rule_block(p: PolicyView, fresh: Seq<char>, now: (i64, u32), t: Option<(i64, u32)>)
    requires
        written(p),
        p.description matches Some(d) ==> !starts_with(d, description_prefix()),
    ensures
        ({
            let key = written_key(p, fresh);
            let ks = keyed_with(policy_settings(p, fresh, now), key, t);
            &&& ks.len() > 0
            &&& forall|i: int| 0 <= i < ks.len() ==> (#[trigger] ks[i]).key == Some(key)
            &&& rule_keys(ks) == seq![key]
            &&& group_policy(ks, key) == Ok::<Option<PolicyView>, IntErrorKind>(Some(read_back_policy(p, fresh, t)))
            &&& safer_to_raw(read_back_policy(p, fresh, t)) == safer_to_raw(p)
        }),
{
    reveal_strlit("ItemData");
    reveal_strlit("Description");
    reveal_strlit("LastModified");
    reveal_strlit("SaferFlags");
    let key = written_key(p, fresh);
    let ls = policy_settings(p, fresh, now);
    let ks = keyed_with(ls, key, t);
    lemma_rule_keys_single(ks, key);
    let n = security_level_number(p.security_level);
    crate::num::lemma_decimal_roundtrip(n as nat, u32::MAX as nat);
    let rt = p.rule_type;
    let base = rule_base(p, fresh);
    let tm = change_time(p, now);
    let item = computer_setting(base, "ItemData"@, item_data(p)->0);
    let last = computer_setting(
        base,
        "LastModified"@,
        LgpoActionView::Qword(((tm.0 + 11_644_473_600) * 10_000_000 + tm.1 / 100) as u128),
    );
    let flags = computer_setting(base, "SaferFlags"@, LgpoActionView::Dword(0));
    let kv = |l: LgpoView| KeyedView { setting: l, key: Some(key), time: t };
    assert("ItemData"@.len() == 8 && "Description"@.len() == 11);
    assert("LastModified"@.len() == 12 && "SaferFlags"@.len() == 10);
    let st0: GroupState = (None, None, None);
    let s1 = absorb(st0, kv(item), rt);
    assert(s1 == (Some(p.target), None::<Seq<char>>, None::<(i64, u32)>));
    match p.description {
        Some(d) => {
            let descr = computer_setting(base, "Description"@, LgpoActionView::Sz(description_prefix() + d));
            assert(ls =~= seq![item, descr, last, flags]);
            assert(ks =~= seq![kv(item), kv(descr), kv(last), kv(flags)]);
            let s2 = absorb(s1, kv(descr), rt);
            assert(s2 == (Some(p.target), Some(description_prefix() + d), None::<(i64, u32)>));
            let s3 = absorb(s2, kv(last), rt);
            assert(s3 == (s2.0, s2.1, t));
            let s4 = absorb(s3, kv(flags), rt);
            assert(s4 == s3);
            assert(ks.take(1).drop_last() =~= ks.take(0));
            assert(ks.take(2).drop_last() =~= ks.take(1));
            assert(ks.take(3).drop_last() =~= ks.take(2));
            assert(ks.take(4).drop_last() =~= ks.take(3));
            assert(absorb_keyed(st0, ks.take(0), key, rt) == st0);
            assert(absorb_keyed(st0, ks.take(1), key, rt) == s1);
            assert(absorb_keyed(st0, ks.take(2), key, rt) == s2);
            assert(absorb_keyed(st0, ks.take(3), key, rt) == s3);
            assert(absorb_keyed(st0, ks.take(4), key, rt) == s4);
            assert(ks.take(4) =~= ks);
            assert(absorb_keyed(st0, ks, key, rt) == s4);
            let full = description_prefix() + d;
            assert(full.take(description_prefix().len() as int) =~= description_prefix());
            assert(full.skip(description_prefix().len() as int) =~= d);
        },
        None => {
            assert(ls =~= seq![item, last, flags]);
            assert(ks =~= seq![kv(item), kv(last), kv(flags)]);
            let s3 = absorb(s1, kv(last), rt);
            assert(s3 == (s1.0, s1.1, t));
            let s4 = absorb(s3, kv(flags), rt);
            assert(s4 == s3);
            assert(ks.take(1).drop_last() =~= ks.take(0));
            assert(ks.take(2).drop_last() =~= ks.take(1));
            assert(ks.take(3).drop_last() =~= ks.take(2));
            assert(absorb_keyed(st0, ks.take(0), key, rt) == st0);
            assert(absorb_keyed(st0, ks.take(1), key, rt) == s1);
            assert(absorb_keyed(st0, ks.take(2), key, rt) == s3);
            assert(absorb_keyed(st0, ks.take(3), key, rt) == s4);
            assert(ks.take(3) =~= ks);
            assert(absorb_keyed(st0, ks, key, rt) == s4);
        },
    }
    assert(policies_of(ks, seq![key].drop_last()) == Ok::<Seq<PolicyView>, IntErrorKind>(seq![]));
    assert(level_of(n as nat) == Some(p.security_level));
    assert(rule_type_of(rule_type_name(rt)) == Some(rt)) by {
        reveal_strlit("Paths");
        reveal_strlit("UrlZones");
        assert("Paths"@.len() != "UrlZones"@.len());
    }
    let pol = read_back_policy(p, fresh, t);
    assert(group_policy(ks, key) == Ok::<Option<PolicyView>, IntErrorKind>(Some(pol)));
    assert(policies_of(ks, seq![key]) == Ok::<Seq<PolicyView>, IntErrorKind>(seq![pol]));
    assert(rules_of_settings(ks) == Ok::<Seq<PolicyView>, Seq<char>>(seq![pol]));
    assert(bare_description(pol.description) == bare_description(p.description));
    assert(safer_to_raw(pol) == safer_to_raw(p));
}

/// A rule written to the policy's settings is read back, from the key it
/// was written under and whatever time is found for its last change, as a
/// rule with the same raw form, where its description does not already
/// begin with the tool's prefix: applying a software restriction rule and
/// auditing it on the next run finds it compliant.
pub proof fn lemma_written_rule_reads_back(p: PolicyView, fresh: Seq<char>, now: (i64, u32), t: Option<(i64, u32)>)
    requires
        written(p),
        p.description matches Some(d) ==> !starts_with(d, description_prefix()),
    ensures
        ({
            let ks = keyed_with(policy_settings(p, fresh, now), written_key(p, fresh), t);
            &&& rules_of_settings(ks) matches Ok(rs)
            &&& rs.len() == 1
            &&& safer_to_raw(rs[0]) == safer_to_raw(p)
            &&& rs[0].last_modified == t
        }),
{
    lemma_rule_block(p, fresh, now, t);
    let key = written_key(p, fresh);
    let ks = keyed_with(policy_settings(p, fresh, now), key, t);
    assert(policies_of(ks, seq![key].drop_last()) == Ok::<Seq<PolicyView>, IntErrorKind>(seq![]));
    assert(policies_of(ks, seq![key]) == Ok::<Seq<PolicyView>, IntErrorKind>(seq![read_back_policy(p, fresh, t)]));
}

/// The settings of written rules, in order, each with the key its rule
/// was written under and the time found for its rule's last change.
pub open spec fn written_settings(
    ps: Seq<PolicyView>,
    fresh: Seq<Seq<char>>,
    now: (i64, u32),
    ts: Seq<Option<(i64, u32)>>,
) -> Seq<KeyedView>
    decreases ps.len(),
{
    if ps.len() == 0 {
        seq![]
    } else {
        written_settings(ps.drop_last(), fresh.drop_last(), now, ts.drop_last()) + keyed_with(
            policy_settings(ps.last(), fresh.last(), now),
            written_key(ps.last(), fresh.last()),
            ts.last(),
        )
    }
}

/// Settings of other keys add nothing to a rule.
proof fn lemma_absorb_skip(st: GroupState, a: Seq<KeyedView>, k: (Seq<char>, Seq<char>, Seq<char>), rt: RuleType)
    requires
        forall|i: int| 0 <= i < a.len() ==> (#[trigger] a[i]).key != Some(k),
    ensures
        absorb_keyed(st, a, k, rt) == st,
    decreases a.len(),
{
    if a.len() > 0 {
        assert(a.last() == a[a.len() - 1]);
        assert forall|i: int| 0 <= i < a.drop_last().len() implies (#[trigger] a.drop_last()[i]).key != Some(k) by {
            assert(a.drop_last()[i] == a[i]);
        }
        lemma_absorb_skip(st, a.drop_last(), k, rt);
    }
}

/// A rule's settings are gathered over two runs of settings in turn.
proof fn lemma_absorb_concat(
    st: GroupState,
    a: Seq<KeyedView>,
    b: Seq<KeyedView>,
    k: (Seq<char>, Seq<char>, Seq<char>),
    rt: RuleType,
)
    ensures
        absorb_keyed(st, a + b, k, rt) == absorb_keyed(absorb_keyed(st, a, k, rt), b, k, rt),
    decreases b.len(),
{
    if b.len() == 0 {
        assert(a + b =~= a);
    } else {
        assert((a + b).drop_last() =~= a + b.drop_last());
        assert((a + b).last() == b.last());
        lemma_absorb_concat(st, a, b.drop_last(), k, rt);
    }
}

/// Appending settings that all carry a new key adds that key.
proof fn lemma_rule_keys_concat(a: Seq<KeyedView>, b: Seq<KeyedView>, k: (Seq<char>, Seq<char>, Seq<char>))
    requires
        b.len() > 0,
        forall|i: int| 0 <= i < b.len() ==> (#[trigger] b[i]).key == Some(k),
        !rule_keys(a).contains(k),
    ensures
        rule_keys(a + b) == rule_keys(a).push(k),
    decreases b.len(),
{
    assert((a + b).drop_last() =~= a + b.drop_last());
    assert((a + b).last() == b[b.len() - 1]);
    if b.len() == 1 {
        assert(a + b.drop_last() =~= a);
    } else {
        assert forall|i: int| 0 <= i < b.drop_last().len() implies (#[trigger] b.drop_last()[i]).key == Some(k) by {
            assert(b.drop_last()[i] == b[i]);
        }
        lemma_rule_keys_concat(a, b.drop_last(), k);
        assert(rule_keys(a).push(k)[rule_keys(a).len() as int] == k);
    }
}

/// The keys of written rules, in order.
pub open spec fn written_keys(ps: Seq<PolicyView>, fresh: Seq<Seq<char>>) -> Seq<(Seq<char>, Seq<char>, Seq<char>)> {
    Seq::new(ps.len(), |j: int| written_key(ps[j], fresh[j]))
}

/// The rules that written rules read back as, in order.
pub open spec fn read_back_policies(
    ps: Seq<PolicyView>,
    fresh: Seq<Seq<char>>,
    ts: Seq<Option<(i64, u32)>>,
) -> Seq<PolicyView> {
    Seq::new(ps.len(), |j: int| read_back_policy(ps[j], fresh[j], ts[j]))
}

/// Rules that can be written and read back: each is written, its
/// description does not already begin with the tool's prefix, and no two
/// are written under the same key.
pub open spec fn rereadable_rules(ps: Seq<PolicyView>, fresh: Seq<Seq<char>>, ts: Seq<Option<(i64, u32)>>) -> bool {
    &&& fresh.len() == ps.len()
    &&& ts.len() == ps.len()
    &&& forall|j: int| 0 <= j < ps.len() ==> #[trigger] written(ps[j])
    &&& forall|j: int|
        0 <= j < ps.len() ==> (#[trigger] ps[j].description matches Some(d) ==> !starts_with(d, description_prefix()))
    &&& forall|i: int, j: int|
        0 <= i < j < ps.len() ==> #[trigger] written_key(ps[i], fresh[i]) != #[trigger] written_key(ps[j], fresh[j])
}

/// The settings of written rules carry their rules' keys, and give each
/// rule back.
proof fn lemma_written_settings(ps: Seq<PolicyView>, fresh: Seq<Seq<char>>, now: (i64, u32), ts: Seq<Option<(i64, u32)>>)
    requires
        rereadable_rules(ps, fresh, ts),
    ensures
        ({
            let ks = written_settings(ps, fresh, now, ts);
            &&& forall|i: int|
                0 <= i < ks.len() ==> exists|j: int|
                    0 <= j < ps.len() && (#[trigger] ks[i]).key == Some(written_key(ps[j], fresh[j]))
            &&& rule_keys(ks) == written_keys(ps, fresh)
            &&& forall|j: int|
                0 <= j < ps.len() ==> group_policy(ks, #[trigger] written_key(ps[j], fresh[j])) == Ok::<
                    Option<PolicyView>,
                    IntErrorKind,
                >(Some(read_back_policy(ps[j], fresh[j], ts[j])))
        }),
    decreases ps.len(),
{
    let ks = written_settings(ps, fresh, now, ts);
    if ps.len() == 0 {
        assert(written_keys(ps, fresh) =~= Seq::<(Seq<char>, Seq<char>, Seq<char>)>::empty());
    } else {
        let n = ps.len() - 1;
        let ps0 = ps.drop_last();
        let f0 = fresh.drop_last();
        let t0 = ts.drop_last();
        assert forall|j: int| 0 <= j < ps0.len() implies #[trigger] written(ps0[j]) by {
            assert(ps0[j] == ps[j]);
        }
        assert forall|j: int| 0 <= j < ps0.len() implies (#[trigger] ps0[j].description matches Some(d)
            ==> !starts_with(d, description_prefix())) by {
            assert(ps0[j] == ps[j]);
        }
        assert forall|i: int, j: int| 0 <= i < j < ps0.len() implies #[trigger] written_key(ps0[i], f0[i])
            != #[trigger] written_key(ps0[j], f0[j]) by {
            assert(ps0[i] == ps[i] && ps0[j] == ps[j] && f0[i] == fresh[i] && f0[j] == fresh[j]);
        }
        lemma_written_settings(ps0, f0, now, t0);
        let prev = written_settings(ps0, f0, now, t0);
        let p = ps[n];
        let key = written_key(p, fresh[n]);
        assert(ps.last() == p && fresh.last() == fresh[n] && ts.last() == ts[n]);
        assert(written(p));
        assert(p.description matches Some(d) ==> !starts_with(d, description_prefix()));
        lemma_rule_block(p, fresh[n], now, ts[n]);
        let block = keyed_with(policy_settings(p, fresh[n], now), key, ts[n]);
        assert(ks == prev + block);
        assert forall|i: int| 0 <= i < prev.len() implies (#[trigger] prev[i]).key != Some(key) by {
            let j = choose|j: int| 0 <= j < ps0.len() && prev[i].key == Some(written_key(ps0[j], f0[j]));
            assert(ps0[j] == ps[j] && f0[j] == fresh[j]);
        }
        assert(!rule_keys(prev).contains(key)) by {
            if rule_keys(prev).contains(key) {
                let j = choose|j: int| 0 <= j < rule_keys(prev).len() && rule_keys(prev)[j] == key;
                assert(written_keys(ps0, f0)[j] == written_key(ps0[j], f0[j]));
                assert(ps0[j] == ps[j] && f0[j] == fresh[j]);
            }
        }
        lemma_rule_keys_concat(prev, block, key);
        assert(rule_keys(ks) =~= written_keys(ps, fresh)) by {
            assert forall|j: int| 0 <= j < ps0.len() implies written_keys(ps0, f0)[j] == written_keys(ps, fresh)[j] by {
                assert(ps0[j] == ps[j] && f0[j] == fresh[j]);
            }
        }
        assert forall|i: int| 0 <= i < ks.len() implies exists|j: int|
            0 <= j < ps.len() && (#[trigger] ks[i]).key == Some(written_key(ps[j], fresh[j])) by {
            if i < prev.len() {
                assert(ks[i] == prev[i]);
                let j = choose|j: int| 0 <= j < ps0.len() && prev[i].key == Some(written_key(ps0[j], f0[j]));
                assert(ps0[j] == ps[j] && f0[j] == fresh[j]);
            } else {
                assert(ks[i] == block[i - prev.len()]);
                assert(ks[i].key == Some(written_key(ps[n], fresh[n])));
            }
        }
        assert forall|j: int| 0 <= j < ps.len() implies group_policy(ks, #[trigger] written_key(ps[j], fresh[j]))
            == Ok::<Option<PolicyView>, IntErrorKind>(Some(read_back_policy(ps[j], fresh[j], ts[j]))) by {
            let kj = written_key(ps[j], fresh[j]);
            if j < n {
                assert(ps0[j] == ps[j] && f0[j] == fresh[j] && t0[j] == ts[j]);
                assert(group_policy(prev, written_key(ps0[j], f0[j])) == Ok::<Option<PolicyView>, IntErrorKind>(
                    Some(read_back_policy(ps0[j], f0[j], t0[j])),
                ));
                assert(kj != key);
                assert forall|i: int| 0 <= i < block.len() implies (#[trigger] block[i]).key != Some(kj) by {}
                assert forall|st: GroupState, rt: RuleType| absorb_keyed(st, ks, kj, rt) == absorb_keyed(st, prev, kj, rt) by {
                    lemma_absorb_concat(st, prev, block, kj, rt);
                    lemma_absorb_skip(absorb_keyed(st, prev, kj, rt), block, kj, rt);
                }
            } else {
                assert forall|st: GroupState, rt: RuleType| absorb_keyed(st, ks, key, rt) == absorb_keyed(st, block, key, rt) by {
                    lemma_absorb_concat(st, prev, block, key, rt);
                    lemma_absorb_skip(st, prev, key, rt);
                }
            }
        }
    }
}

/// The rules of the keys of written rules, taken in order, are the rules
/// they read back as.
proof fn lemma_policies_prefix(ks: Seq<KeyedView>, ps: Seq<PolicyView>, fresh: Seq<Seq<char>>, ts: Seq<Option<(i64, u32)>>, m: int)
    requires
        0 <= m <= ps.len(),
        fresh.len() == ps.len(),
        ts.len() == ps.len(),
        forall|j: int|
            0 <= j < ps.len() ==> group_policy(ks, #[trigger] written_key(ps[j], fresh[j])) == Ok::<
                Option<PolicyView>,
                IntErrorKind,
            >(Some(read_back_policy(ps[j], fresh[j], ts[j]))),
    ensures
        policies_of(ks, written_keys(ps, fresh).take(m)) == Ok::<Seq<PolicyView>, IntErrorKind>(
            read_back_policies(ps, fresh, ts).take(m),
        ),
    decreases m,
{
    let wk = written_keys(ps, fresh);
    if m == 0 {
        assert(wk.take(0) =~= Seq::<(Seq<char>, Seq<char>, Seq<char>)>::empty());
        assert(read_back_policies(ps, fresh, ts).take(0) =~= Seq::<PolicyView>::empty());
    } else {
        lemma_policies_prefix(ks, ps, fresh, ts, m - 1);
        assert(wk.take(m).drop_last() =~= wk.take(m - 1));
        assert(wk.take(m).last() == written_key(ps[m - 1], fresh[m - 1]));
        assert(read_back_policies(ps, fresh, ts).take(m) =~= read_back_policies(ps, fresh, ts).take(m - 1).push(
            read_back_policy(ps[m - 1], fresh[m - 1], ts[m - 1]),
        ));
    }
}

/// The settings of written rules are those that writing them makes.
proof fn lemma_written_settings_converted(
    ps: Seq<PolicyView>,
    fresh: Seq<Seq<char>>,
    now: (i64, u32),
    ts: Seq<Option<(i64, u32)>>,
)
    ensures
        written_settings(ps, fresh, now, ts).map_values(|k: KeyedView| k.setting) == convert_spec(ps, fresh, now),
    decreases ps.len(),
{
    if ps.len() > 0 {
        lemma_written_settings_converted(ps.drop_last(), fresh.drop_last(), now, ts.drop_last());
        let a = written_settings(ps.drop_last(), fresh.drop_last(), now, ts.drop_last());
        let ls = policy_settings(ps.last(), fresh.last(), now);
        let b = keyed_with(ls, written_key(ps.last(), fresh.last()), ts.last());
        assert((a + b).map_values(|k: KeyedView| k.setting) =~= a.map_values(|k: KeyedView| k.setting) + b.map_values(
            |k: KeyedView| k.setting,
        ));
        assert(b.map_values(|k: KeyedView| k.setting) =~= ls);
    } else {
        assert(written_settings(ps, fresh, now, ts).map_values(|k: KeyedView| k.setting) =~= Seq::<LgpoView>::empty());
    }
}

/// Written rules are read back from the settings that writing them makes,
/// from the keys they were written under and whatever times are found for
/// their last changes, in order and each with its raw form, where they can
/// be written and read back and no two share a key: applying software
/// restriction rules and auditing them on the next run finds them
/// compliant.
pub proof fn lemma_written_rules_read_back(
    ps: Seq<PolicyView>,
    fresh: Seq<Seq<char>>,
    now: (i64, u32),
    ts: Seq<Option<(i64, u32)>>,
)
    requires
        rereadable_rules(ps, fresh, ts),
    ensures
        ({
            let ks = written_settings(ps, fresh, now, ts);
            &&& ks.map_values(|k: KeyedView| k.setting) == convert_spec(ps, fresh, now)
            &&& rules_of_settings(ks) matches Ok(rs)
            &&& rs.len() == ps.len()
            &&& forall|j: int| 0 <= j < ps.len() ==> safer_to_raw(#[trigger] rs[j]) == safer_to_raw(ps[j])
            &&& forall|j: int| 0 <= j < ps.len() ==> (#[trigger] rs[j]).last_modified == ts[j]
        }),
{
    let ks = written_settings(ps, fresh, now, ts);
    lemma_written_settings_converted(ps, fresh, now, ts);
    lemma_written_settings(ps, fresh, now, ts);
    lemma_policies_prefix(ks, ps, fresh, ts, ps.len() as int);
    let wk = written_keys(ps, fresh);
    let rb = read_back_policies(ps, fresh, ts);
    assert(wk.take(ps.len() as int) =~= wk);
    assert(rb.take(ps.len() as int) =~= rb);
    assert forall|j: int| 0 <= j < ps.len() implies safer_to_raw(#[trigger] rb[j]) == safer_to_raw(ps[j]) by {
        assert(written(ps[j]));
        assert(ps[j].description matches Some(d) ==> !starts_with(d, description_prefix()));
        lemma_rule_block(ps[j], fresh[j], now, ts[j]);
    }
}

fn guid_valid_exec(g: &str) -> (r: bool)
    ensures
        r == guid_valid(g@),
{
    let cs = chars_of(g);
    if cs.len() != 36 {
        return false;
    }
    let mut i: usize = 0;
    while i < 36
        invariant
            i <= 36,
            cs@.len() == 36,
            cs@ == g@,
            forall|j: int|
                0 <= j < i ==> if j == 8 || j == 13 || j == 18 || j == 23 {
                    cs@[j] == '-'
                } else {
                    is_hex(#[trigger] cs@[j])
                },
        decreases 36 - i,
    {
        let c = cs[i];
        let u = c as u32;
        let ok = if i == 8 || i == 13 || i == 18 || i == 23 {
            c == '-'
        } else {
            (0x30 <= u && u <= 0x39) || (0x61 <= u && u <= 0x66) || (0x41 <= u && u <= 0x46)
        };
        if !ok {
            assert(!guid_valid(g@)) by {
                if i == 8 || i == 13 || i == 18 || i == 23 {
                } else {
                    assert(!is_hex(cs@[i as int]));
                }
            }
            return false;
        }
        i = i + 1;
    }
    true
}

/// Whether reading the rules from these settings does not panic.
pub fn lgpos_readable(lgpos: &Vec<LocalGroupPolicyObject>) -> (r: bool)
    ensures
        r == parse_readable(lgpos.deep_view()),
{
    let ghost lv = lgpos.deep_view();
    let mut i: usize = 0;
    while i < lgpos.len()
        invariant
            i <= lgpos@.len(),
            lv == lgpos.deep_view(),
            forall|j: int|
                0 <= j < i && #[trigger] reads_filetime(lv[j]) ==> crate::utils::filetime_after_epoch(
                    lv[j].action->Qword_0 as u64,
                ),
            forall|j: int| 0 <= j < i && #[trigger] reads_guid(lv[j]) ==> guid_valid(rule_guid(lv[j])),
        decreases lgpos@.len() - i,
    {
        assert(lv[i as int] == lgpos@[i as int]@);
        match rule_key_exec(&lgpos[i]) {
            Some(k) => {
                if key_counts_exec(&k) {
                    let g = trim_braces_exec(k.2.as_str());
                    if !guid_valid_exec(g.as_str()) {
                        assert(reads_guid(lv[i as int]));
                        return false;
                    }
                    if str_eq(lgpos[i].value_name.as_str(), "LastModified") {
                        if let LgpoAction::Qword(ft) = &lgpos[i].action {
                            let low = *ft as u64;
                            if low / 10_000_000 < 11_644_473_600 {
                                assert(reads_filetime(lv[i as int]));
                                return false;
                            }
                        }
                    }
                }
            },
            None => {},
        }
        i = i + 1;
    }
    true
}

/// A security level's number grows with what the level allows, from 0 for
/// disallowed through 0x20000 for a basic user to 0x40000 for
/// unrestricted, and reads back as the level; a zone's number is its
/// Internet Explorer zone, from 0 for the local machine to 4 for the
/// restricted sites, and reads back as the zone.
pub proof fn lemma_level_and_zone_numbers(l: SecurityLevel, z: UrlZones)
    ensures
        security_level_number(SecurityLevel::Disallowed) == 0,
        security_level_number(SecurityLevel::Disallowed) < security_level_number(SecurityLevel::BasicUser),
        security_level_number(SecurityLevel::BasicUser) < security_level_number(SecurityLevel::Unrestricted),
        security_level_number(SecurityLevel::Unrestricted) == 2 * security_level_number(SecurityLevel::BasicUser),
        security_level_number(SecurityLevel::BasicUser) == 0x20000,
        level_of(security_level_number(l) as nat) == Some(l),
        url_zone_number(UrlZones::LocalMachine) == 0,
        url_zone_number(UrlZones::LocalMachine) < url_zone_number(UrlZones::LocalIntranet),
        url_zone_number(UrlZones::LocalIntranet) < url_zone_number(UrlZones::TrustedSites),
        url_zone_number(UrlZones::TrustedSites) < url_zone_number(UrlZones::Internet),
        url_zone_number(UrlZones::Internet) < url_zone_number(UrlZones::RestrictedSites),
        url_zone_number(UrlZones::RestrictedSites) == 4,
        zone_of(url_zone_number(z) as u32) == Some(z),
{
}

} // verus!
