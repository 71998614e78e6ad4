//! Windows Firewall rules: their text form in the rules file, how the
//! firewall's own description of a rule is read, and the PowerShell
//! commands that create and delete rules.
use vstd::prelude::*;

use crate::lgpo::copy_string;
use crate::num::{decimal, fmt_decimal, int_error_message, int_error_text, parse_uint, parse_uint_chars, IntErrorKind};
use crate::raw::{lit, RawMethod, RawView};
use crate::text::{
    chars_of, concat, join, rview, split, split_chars, split_once, split_once_chars, str_eq, string_of,
    unknown_variant, unknown_variant_message, views,
};

verus! {

/// Whether a rule lets traffic through; `NoExists` stands for a rule that is not there.
#[derive(Debug, Clone, Copy, PartialEq, Eq, Structural)]
pub enum Action {
    Allow,
    Block,
    NoExists,
}

/// How each `Action` is written in text.
pub open spec fn action_name(x: Action) -> Seq<char> {
    match x {
        Action::Allow => "Allow"@,
        Action::Block => "Block"@,
        Action::NoExists => "NoExists"@,
    }
}

pub open spec fn action_names() -> Seq<Seq<char>> {
    seq!["Allow"@, "Block"@, "NoExists"@]
}

/// Reads the `Action` written as `s`; any other text is an unknown variant.
pub open spec fn action_from_name(s: Seq<char>) -> Result<Action, Seq<char>> {
    if s == "Allow"@ {
        Ok(Action::Allow)
    } else if s == "Block"@ {
        Ok(Action::Block)
    } else if s == "NoExists"@ {
        Ok(Action::NoExists)
    } else {
        Err(unknown_variant(s, action_names()))
    }
}

impl Action {
    pub fn name(&self) -> (r: &'static str)
        ensures
            r@ == action_name(*self),
    {
        match self {
            Action::Allow => "Allow",
            Action::Block => "Block",
            Action::NoExists => "NoExists",
        }
    }

    /// Reads the `Action` written as `s`.
    pub fn from_name(s: &str) -> (r: Result<Action, String>)
        ensures
            match action_from_name(s@) {
                Ok(x) => r == Ok::<Action, String>(x),
                Err(e) => r is Err && r->Err_0@ == e,
            },
    {
        let names: Vec<&str> = vec!["Allow", "Block", "NoExists"];
        if str_eq(s, "Allow") {
            Ok(Action::Allow)
        } else if str_eq(s, "Block") {
            Ok(Action::Block)
        } else if str_eq(s, "NoExists") {
            Ok(Action::NoExists)
        } else {
            assert(names@.map_values(|n: &str| n@) =~= action_names());
            let v = chars_of(s);
            Err(unknown_variant_message(v.as_slice(), &names))
        }
    }
}

proof fn lemma_action_names()
    ensures
        "Allow"@ == seq!['A', 'l', 'l', 'o', 'w'],
        "Block"@ == seq!['B', 'l', 'o', 'c', 'k'],
        "NoExists"@ == seq!['N', 'o', 'E', 'x', 'i', 's', 't', 's'],
{
    reveal_strlit("Allow");
    reveal_strlit("Block");
    reveal_strlit("NoExists");
    assert("Allow"@ =~= seq!['A', 'l', 'l', 'o', 'w']);
    assert("Block"@ =~= seq!['B', 'l', 'o', 'c', 'k']);
    assert("NoExists"@ =~= seq!['N', 'o', 'E', 'x', 'i', 's', 't', 's']);
}

/// The text of each `Action` reads back as it.
pub proof fn lemma_action_name_roundtrip(x: Action)
    ensures
        action_from_name(action_name(x)) == Ok::<Action, Seq<char>>(x),
{
    lemma_action_names();
    assert("Allow"@[0] != "Block"@[0]);
    assert("Allow"@.len() != "NoExists"@.len());
    assert("Block"@.len() != "NoExists"@.len());
}

/// The direction of the traffic a rule applies to.
#[derive(Debug, Clone, Copy, PartialEq, Eq, Structural)]
pub enum Direction {
    Inbound,
    Outbound,
}

/// How each `Direction` is written in text.
pub open spec fn direction_name(x: Direction) -> Seq<char> {
    match x {
        Direction::Inbound => "Inbound"@,
        Direction::Outbound => "Outbound"@,
    }
}

pub open spec fn direction_names() -> Seq<Seq<char>> {
    seq!["Inbound"@, "Outbound"@]
}

/// Reads the `Direction` written as `s`; any other text is an unknown variant.
pub open spec fn direction_from_name(s: Seq<char>) -> Result<Direction, Seq<char>> {
    if s == "Inbound"@ {
        Ok(Direction::Inbound)
    } else if s == "Outbound"@ {
        Ok(Direction::Outbound)
    } else {
        Err(unknown_variant(s, direction_names()))
    }
}

impl Direction {
    pub fn name(&self) -> (r: &'static str)
        ensures
            r@ == direction_name(*self),
    {
        match self {
            Direction::Inbound => "Inbound",
            Direction::Outbound => "Outbound",
        }
    }

    /// Reads the `Direction` written as `s`.
    pub fn from_name(s: &str) -> (r: Result<Direction, String>)
        ensures
            match direction_from_name(s@) {
                Ok(x) => r == Ok::<Direction, String>(x),
                Err(e) => r is Err && r->Err_0@ == e,
            },
    {
        let names: Vec<&str> = vec!["Inbound", "Outbound"];
        if str_eq(s, "Inbound") {
            Ok(Direction::Inbound)
        } else if str_eq(s, "Outbound") {
            Ok(Direction::Outbound)
        } else {
            assert(names@.map_values(|n: &str| n@) =~= direction_names());
            let v = chars_of(s);
            Err(unknown_variant_message(v.as_slice(), &names))
        }
    }
}

proof fn lemma_direction_names()
    ensures
        "Inbound"@ == seq!['I', 'n', 'b', 'o', 'u', 'n', 'd'],
        "Outbound"@ == seq!['O', 'u', 't', 'b', 'o', 'u', 'n', 'd'],
{
    reveal_strlit("Inbound");
    reveal_strlit("Outbound");
    assert("Inbound"@ =~= seq!['I', 'n', 'b', 'o', 'u', 'n', 'd']);
    assert("Outbound"@ =~= seq!['O', 'u', 't', 'b', 'o', 'u', 'n', 'd']);
}

/// The text of each `Direction` reads back as it.
pub proof fn lemma_direction_name_roundtrip(x: Direction)
    ensures
        direction_from_name(direction_name(x)) == Ok::<Direction, Seq<char>>(x),
{
    lemma_direction_names();
    assert("Inbound"@.len() != "Outbound"@.len());
}

/// The network protocol of a rule.
#[derive(Debug, Clone, Copy, PartialEq, Eq, Structural)]
pub enum Protocol {
    TCP,
    UDP,
    Any,
    ICMP,
}

/// How each `Protocol` is written in text.
pub open spec fn protocol_name(x: Protocol) -> Seq<char> {
    match x {
        Protocol::TCP => "TCP"@,
        Protocol::UDP => "UDP"@,
        Protocol::Any => "Any"@,
        Protocol::ICMP => "ICMP"@,
    }
}

pub open spec fn protocol_names() -> Seq<Seq<char>> {
    seq!["TCP"@, "UDP"@, "Any"@, "ICMP"@]
}

/// Reads the `Protocol` written as `s`; any other text is an unknown variant.
pub open spec fn protocol_from_name(s: Seq<char>) -> Result<Protocol, Seq<char>> {
    if s == "TCP"@ {
        Ok(Protocol::TCP)
    } else if s == "UDP"@ {
        Ok(Protocol::UDP)
    } else if s == "Any"@ {
        Ok(Protocol::Any)
    } else if s == "ICMP"@ {
        Ok(Protocol::ICMP)
    } else {
        Err(unknown_variant(s, protocol_names()))
    }
}

impl Protocol {
    pub fn name(&self) -> (r: &'static str)
        ensures
            r@ == protocol_name(*self),
    {
        match self {
            Protocol::TCP => "TCP",
            Protocol::UDP => "UDP",
            Protocol::Any => "Any",
            Protocol::ICMP => "ICMP",
        }
    }

    /// Reads the `Protocol` written as `s`.
    pub fn from_name(s: &str) -> (r: Result<Protocol, String>)
        ensures
            match protocol_from_name(s@) {
                Ok(x) => r == Ok::<Protocol, String>(x),
                Err(e) => r is Err && r->Err_0@ == e,
            },
    {
        let names: Vec<&str> = vec!["TCP", "UDP", "Any", "ICMP"];
        if str_eq(s, "TCP") {
            Ok(Protocol::TCP)
        } else if str_eq(s, "UDP") {
            Ok(Protocol::UDP)
        } else if str_eq(s, "Any") {
            Ok(Protocol::Any)
        } else if str_eq(s, "ICMP") {
            Ok(Protocol::ICMP)
        } else {
            assert(names@.map_values(|n: &str| n@) =~= protocol_names());
            let v = chars_of(s);
            Err(unknown_variant_message(v.as_slice(), &names))
        }
    }
}

proof fn lemma_protocol_names()
    ensures
        "TCP"@ == seq!['T', 'C', 'P'],
        "UDP"@ == seq!['U', 'D', 'P'],
        "Any"@ == seq!['A', 'n', 'y'],
        "ICMP"@ == seq!['I', 'C', 'M', 'P'],
{
    reveal_strlit("TCP");
    reveal_strlit("UDP");
    reveal_strlit("Any");
    reveal_strlit("ICMP");
    assert("TCP"@ =~= seq!['T', 'C', 'P']);
    assert("UDP"@ =~= seq!['U', 'D', 'P']);
    assert("Any"@ =~= seq!['A', 'n', 'y']);
    assert("ICMP"@ =~= seq!['I', 'C', 'M', 'P']);
}

/// The text of each `Protocol` reads back as it.
pub proof fn lemma_protocol_name_roundtrip(x: Protocol)
    ensures
        protocol_from_name(protocol_name(x)) == Ok::<Protocol, Seq<char>>(x),
{
    lemma_protocol_names();
    assert("TCP"@[0] != "UDP"@[0]);
    assert("TCP"@[0] != "Any"@[0]);
    assert("TCP"@.len() != "ICMP"@.len());
    assert("UDP"@[0] != "Any"@[0]);
    assert("UDP"@.len() != "ICMP"@.len());
    assert("Any"@.len() != "ICMP"@.len());
}

/// The network profile a rule applies to.
#[derive(Debug, Clone, Copy, PartialEq, Eq, Structural)]
pub enum Profile {
    Any,
    Domain,
    Private,
    Public,
}

/// How each `Profile` is written in text.
pub open spec fn profile_name(x: Profile) -> Seq<char> {
    match x {
        Profile::Any => "Any"@,
        Profile::Domain => "Domain"@,
        Profile::Private => "Private"@,
        Profile::Public => "Public"@,
    }
}

pub open spec fn profile_names() -> Seq<Seq<char>> {
    seq!["Any"@, "Domain"@, "Private"@, "Public"@]
}

/// Reads the `Profile` written as `s`; any other text is an unknown variant.
pub open spec fn profile_from_name(s: Seq<char>) -> Result<Profile, Seq<char>> {
    if s == "Any"@ {
        Ok(Profile::Any)
    } else if s == "Domain"@ {
        Ok(Profile::Domain)
    } else if s == "Private"@ {
        Ok(Profile::Private)
    } else if s == "Public"@ {
        Ok(Profile::Public)
    } else {
        Err(unknown_variant(s, profile_names()))
    }
}

impl Profile {
    pub fn name(&self) -> (r: &'static str)
        ensures
            r@ == profile_name(*self),
    {
        match self {
            Profile::Any => "Any",
            Profile::Domain => "Domain",
            Profile::Private => "Private",
            Profile::Public => "Public",
        }
    }

    /// Reads the `Profile` written as `s`.
    pub fn from_name(s: &str) -> (r: Result<Profile, String>)
        ensures
            match profile_from_name(s@) {
                Ok(x) => r == Ok::<Profile, String>(x),
                Err(e) => r is Err && r->Err_0@ == e,
            },
    {
        let names: Vec<&str> = vec!["Any", "Domain", "Private", "Public"];
        if str_eq(s, "Any") {
            Ok(Profile::Any)
        } else if str_eq(s, "Domain") {
            Ok(Profile::Domain)
        } else if str_eq(s, "Private") {
            Ok(Profile::Private)
        } else if str_eq(s, "Public") {
            Ok(Profile::Public)
        } else {
            assert(names@.map_values(|n: &str| n@) =~= profile_names());
            let v = chars_of(s);
            Err(unknown_variant_message(v.as_slice(), &names))
        }
    }
}

proof fn lemma_profile_names()
    ensures
        "Any"@ == seq!['A', 'n', 'y'],
        "Domain"@ == seq!['D', 'o', 'm', 'a', 'i', 'n'],
        "Private"@ == seq!['P', 'r', 'i', 'v', 'a', 't', 'e'],
        "Public"@ == seq!['P', 'u', 'b', 'l', 'i', 'c'],
{
    reveal_strlit("Any");
    reveal_strlit("Domain");
    reveal_strlit("Private");
    reveal_strlit("Public");
    assert("Any"@ =~= seq!['A', 'n', 'y']);
    assert("Domain"@ =~= seq!['D', 'o', 'm', 'a', 'i', 'n']);
    assert("Private"@ =~= seq!['P', 'r', 'i', 'v', 'a', 't', 'e']);
    assert("Public"@ =~= seq!['P', 'u', 'b', 'l', 'i', 'c']);
}

/// The text of each `Profile` reads back as it.
pub proof fn lemma_profile_name_roundtrip(x: Profile)
    ensures
        profile_from_name(profile_name(x)) == Ok::<Profile, Seq<char>>(x),
{
    lemma_profile_names();
    assert("Any"@.len() != "Domain"@.len());
    assert("Any"@.len() != "Private"@.len());
    assert("Any"@.len() != "Public"@.len());
    assert("Domain"@.len() != "Private"@.len());
    assert("Domain"@[0] != "Public"@[0]);
    assert("Private"@.len() != "Public"@.len());
}

// ------------------------------------------------------------------
// Ports
// ------------------------------------------------------------------

/// A single port or a range of ports.
#[derive(Debug, Clone, Copy, PartialEq, Eq, Structural)]
pub enum PortSpec {
    Single(u16),
    Range { start: u16, end: u16 },
}

/// The local ports of a rule: all of them, or a list.
#[derive(Debug)]
pub enum Port {
    Any,
    List(Vec<PortSpec>),
}

pub enum PortView {
    Any,
    List(Seq<PortSpec>),
}

impl View for Port {
    type V = PortView;

    open spec fn view(&self) -> PortView {
        match self {
            Port::Any => PortView::Any,
            Port::List(v) => PortView::List(v@),
        }
    }
}

/// `n`, or `start-end`.
pub open spec fn port_spec_text(p: PortSpec) -> Seq<char> {
    match p {
        PortSpec::Single(n) => decimal(n as nat),
        PortSpec::Range { start, end } => decimal(start as nat) + "-"@ + decimal(end as nat),
    }
}

/// `Any`, or the entries of the list joined by commas.
pub open spec fn port_text(p: PortView) -> Seq<char> {
    match p {
        PortView::Any => "Any"@,
        PortView::List(ps) => join(ps.map_values(|x: PortSpec| port_spec_text(x)), ","@),
    }
}

/// Reads a port number as `u16::from_str` does.
pub open spec fn parse_port_number(s: Seq<char>) -> Result<u16, IntErrorKind> {
    match parse_uint(s, 10, u16::MAX as nat) {
        Ok(n) => Ok(n as u16),
        Err(k) => Err(k),
    }
}

/// One entry of a port list: a range where it holds a `-`, else a port.
pub open spec fn parse_port_spec(chunk: Seq<char>) -> Option<PortSpec> {
    match split_once(chunk, "-"@) {
        Some((a, b)) => match (parse_port_number(a), parse_port_number(b)) {
            (Ok(x), Ok(y)) => Some(PortSpec::Range { start: x, end: y }),
            _ => None,
        },
        None => match parse_port_number(chunk) {
            Ok(x) => Some(PortSpec::Single(x)),
            Err(_) => None,
        },
    }
}

/// Reads the text of a port list; `None` where an entry is no port or
/// range (the deserializer refuses it).
pub open spec fn parse_port_text(s: Seq<char>) -> Option<PortView> {
    if s == "Any"@ {
        Some(PortView::Any)
    } else {
        let chunks = split(s, ","@);
        if forall|i: int| 0 <= i < chunks.len() ==> (#[trigger] parse_port_spec(chunks[i])) is Some {
            Some(PortView::List(Seq::new(chunks.len(), |i: int| parse_port_spec(chunks[i])->0)))
        } else {
            None
        }
    }
}

fn parse_port_number_exec(s: &[char]) -> (r: Result<u16, IntErrorKind>)
    ensures
        r == parse_port_number(s@),
{
    match parse_uint_chars(s, 10, 65535) {
        Ok(n) => Ok(n as u16),
        Err(k) => Err(k),
    }
}

fn parse_port_spec_exec(chunk: &[char]) -> (r: Option<PortSpec>)
    ensures
        r == parse_port_spec(chunk@),
{
    let dash = vec!['-'];
    proof {
        reveal_strlit("-");
    }
    assert(dash@ =~= "-"@);
    match split_once_chars(chunk, dash.as_slice()) {
        Some((a, b)) => match (parse_port_number_exec(a.as_slice()), parse_port_number_exec(b.as_slice())) {
            (Ok(x), Ok(y)) => Some(PortSpec::Range { start: x, end: y }),
            _ => None,
        },
        None => match parse_port_number_exec(chunk) {
            Ok(x) => Some(PortSpec::Single(x)),
            Err(_) => None,
        },
    }
}

impl Port {
    /// Reads the text of a port list; `None`
    /// where an entry is no port or range.
    pub fn from_text(s: &str) -> (r: Option<Port>)
        ensures
            match parse_port_text(s@) {
                Some(p) => r is Some && r->0@ == p,
                None => r is None,
            },
    {
        if str_eq(s, "Any") {
            return Some(Port::Any);
        }
        let comma = vec![','];
        proof {
            reveal_strlit(",");
        }
        assert(comma@ =~= ","@);
        let chunks = split_chars(chars_of(s).as_slice(), comma.as_slice());
        let ghost cs = views(chunks@);
        let mut specs: Vec<PortSpec> = Vec::new();
        let mut i: usize = 0;
        while i < chunks.len()
            invariant
                i <= chunks@.len(),
                cs == views(chunks@),
                cs == split(s@, ","@),
                s@ != "Any"@,
                specs@.len() == i,
                forall|j: int| 0 <= j < i ==> (#[trigger] parse_port_spec(cs[j])) == Some(specs@[j]),
            decreases chunks@.len() - i,
        {
            match parse_port_spec_exec(chunks[i].as_slice()) {
                Some(x) => specs.push(x),
                None => {
                    assert(parse_port_spec(cs[i as int]) is None);
                    assert(!(forall|j: int| 0 <= j < cs.len() ==> (#[trigger] parse_port_spec(cs[j])) is Some));
                    return None;
                },
            }
            i = i + 1;
        }
        assert(specs@ =~= Seq::new(cs.len(), |j: int| parse_port_spec(cs[j])->0));
        Some(Port::List(specs))
    }

    /// The text of a port list.
    pub fn text(&self) -> (r: String)
        ensures
            r@ == port_text(self@),
    {
        match self {
            Port::Any => lit("Any"),
            Port::List(ps) => {
                let mut texts: Vec<String> = Vec::new();
                let mut i: usize = 0;
                while i < ps.len()
                    invariant
                        i <= ps@.len(),
                        texts@.len() == i,
                        forall|j: int| 0 <= j < i ==> (#[trigger] texts@[j])@ == port_spec_text(ps@[j]),
                    decreases ps@.len() - i,
                {
                    texts.push(port_spec_string(ps[i]));
                    i = i + 1;
                }
                assert(texts.deep_view() =~= ps@.map_values(|x: PortSpec| port_spec_text(x)));
                crate::text::join_strs(texts.as_slice(), ",")
            },
        }
    }
}

fn port_spec_string(p: PortSpec) -> (r: String)
    ensures
        r@ == port_spec_text(p),
{
    match p {
        PortSpec::Single(n) => string_of(fmt_decimal(n as u128).as_slice()),
        PortSpec::Range { start, end } => {
            let a = fmt_decimal(start as u128);
            let b = concat(a.as_slice(), chars_of("-").as_slice());
            let c = concat(b.as_slice(), fmt_decimal(end as u128).as_slice());
            string_of(c.as_slice())
        },
    }
}

// ------------------------------------------------------------------
// Rules
// ------------------------------------------------------------------

/// A firewall rule.
#[derive(Debug)]
pub struct FirewallRule {
    pub rule_name: String,
    pub action: Action,
    pub direction: Direction,
    pub protocol: Protocol,
    pub local_port: Port,
    pub profiles: Vec<Profile>,
}

pub struct FirewallRuleView {
    pub rule_name: Seq<char>,
    pub action: Action,
    pub direction: Direction,
    pub protocol: Protocol,
    pub local_port: PortView,
    pub profiles: Seq<Profile>,
}

impl View for FirewallRule {
    type V = FirewallRuleView;

    open spec fn view(&self) -> FirewallRuleView {
        FirewallRuleView {
            rule_name: self.rule_name@,
            action: self.action,
            direction: self.direction,
            protocol: self.protocol,
            local_port: self.local_port@,
            profiles: self.profiles@,
        }
    }
}

/// A rule as the firewall describes it: numbers for its action,
/// direction and profiles.
#[derive(Debug)]
pub struct FirewallRuleRaw {
    pub display_name: String,
    pub description: Option<String>,
    pub enabled: u8,
    pub action: u8,
    pub direction: u8,
    pub profile: u8,
}

/// The port filter of a rule as the firewall describes it.
#[derive(Debug)]
pub struct FirewallPortFilterRaw {
    pub local_port: LocalPort,
    pub protocol: Protocol,
}

/// The local ports as the firewall describes them: a word such as `Any`,
/// or a list of ports and ranges with its length.
#[derive(Debug)]
pub enum LocalPort {
    Any(String),
    List { value: Vec<String>, count: usize },
}

pub enum LocalPortView {
    Any(Seq<char>),
    List { value: Seq<Seq<char>>, count: usize },
}

impl View for LocalPort {
    type V = LocalPortView;

    open spec fn view(&self) -> LocalPortView {
        match self {
            LocalPort::Any(s) => LocalPortView::Any(s@),
            LocalPort::List { value, count } => LocalPortView::List { value: value.deep_view(), count: *count },
        }
    }
}

/// The firewall's action number: 2 allows, anything else blocks.
pub open spec fn raw_action(a: u8) -> Action {
    if a == 2 {
        Action::Allow
    } else {
        Action::Block
    }
}

/// The firewall's direction number: 0 is outbound, anything else inbound.
pub open spec fn raw_direction(d: u8) -> Direction {
    if d == 0 {
        Direction::Outbound
    } else {
        Direction::Inbound
    }
}

/// The firewall's profile number, a set of bits (domain 1, private 2,
/// public 4); 0 is any profile, and a number above 6 reads as domain.
pub open spec fn raw_profiles(p: u8) -> Seq<Profile> {
    if p == 0 {
        seq![Profile::Any]
    } else if p == 1 {
        seq![Profile::Domain]
    } else if p == 2 {
        seq![Profile::Private]
    } else if p == 3 {
        seq![Profile::Domain, Profile::Private]
    } else if p == 4 {
        seq![Profile::Public]
    } else if p == 5 {
        seq![Profile::Domain, Profile::Public]
    } else if p == 6 {
        seq![Profile::Private, Profile::Public]
    } else {
        seq![Profile::Domain]
    }
}

/// One entry of the firewall's port list: a range where it holds a `-`
/// (its first two parts), else a single port.
pub open spec fn port_entry(p: Seq<char>) -> Result<PortSpec, IntErrorKind> {
    let parts = split(p, "-"@);
    if parts.len() >= 2 {
        match parse_port_number(parts[0]) {
            Err(k) => Err(k),
            Ok(a) => match parse_port_number(parts[1]) {
                Err(k) => Err(k),
                Ok(b) => Ok(PortSpec::Range { start: a, end: b }),
            },
        }
    } else {
        match parse_port_number(p) {
            Ok(n) => Ok(PortSpec::Single(n)),
            Err(k) => Err(k),
        }
    }
}

/// The entries of the firewall's port list, or the first entry's error.
pub open spec fn port_entries(vs: Seq<Seq<char>>) -> Result<Seq<PortSpec>, IntErrorKind>
    decreases vs.len(),
{
    if vs.len() == 0 {
        Ok(seq![])
    } else {
        match port_entry(vs[0]) {
            Err(k) => Err(k),
            Ok(x) => match port_entries(vs.drop_first()) {
                Ok(r) => Ok(seq![x] + r),
                Err(k) => Err(k),
            },
        }
    }
}

/// The local ports of the firewall's description: any, the one entry (a
/// port or a range) of a list of length one, or the entries of a longer
/// list; only an entry that does not read is an error.
pub open spec fn local_port_spec(lp: LocalPortView) -> Result<PortView, IntErrorKind> {
    match lp {
        LocalPortView::Any(_) => Ok(PortView::Any),
        LocalPortView::List { value, count } => if count == 1 {
            match port_entry(value[0]) {
                Ok(x) => Ok(PortView::List(seq![x])),
                Err(k) => Err(k),
            }
        } else {
            match port_entries(value) {
                Ok(ps) => Ok(PortView::List(ps)),
                Err(k) => Err(k),
            }
        },
    }
}

/// Reading the list of a single port takes its first entry.
pub open spec fn local_port_readable(lp: LocalPortView) -> bool {
    lp matches LocalPortView::List { value, count } ==> (count == 1 ==> value.len() >= 1)
}

spec fn prepend(a: Seq<PortSpec>, r: Result<Seq<PortSpec>, IntErrorKind>) -> Result<Seq<PortSpec>, IntErrorKind> {
    match r {
        Ok(x) => Ok(a + x),
        Err(k) => Err(k),
    }
}

fn port_entry_exec(p: &[char]) -> (r: Result<PortSpec, IntErrorKind>)
    ensures
        r == port_entry(p@),
{
    let dash = vec!['-'];
    proof {
        reveal_strlit("-");
    }
    assert(dash@ =~= "-"@);
    let parts = split_chars(p, dash.as_slice());
    if parts.len() >= 2 {
        let a = parse_port_number_exec(parts[0].as_slice())?;
        let b = parse_port_number_exec(parts[1].as_slice())?;
        Ok(PortSpec::Range { start: a, end: b })
    } else {
        let n = parse_port_number_exec(p)?;
        Ok(PortSpec::Single(n))
    }
}

fn port_entries_exec(vs: &Vec<String>) -> (r: Result<Vec<PortSpec>, IntErrorKind>)
    ensures
        match port_entries(vs.deep_view()) {
            Ok(ps) => r is Ok && r->Ok_0@ == ps,
            Err(k) => r == Err::<Vec<PortSpec>, IntErrorKind>(k),
        },
{
    let ghost all = vs.deep_view();
    let mut acc: Vec<PortSpec> = Vec::new();
    let mut i: usize = 0;
    assert(all.skip(0) =~= all);
    assert(acc@ + Seq::<PortSpec>::empty() =~= acc@);
    while i < vs.len()
        invariant
            i <= vs@.len(),
            all == vs.deep_view(),
            port_entries(all) == prepend(acc@, port_entries(all.skip(i as int))),
        decreases vs@.len() - i,
    {
        let ghost t = all.skip(i as int);
        assert(t[0] == vs@[i as int]@);
        assert(t.drop_first() =~= all.skip(i + 1));
        let x = port_entry_exec(chars_of(vs[i].as_str()).as_slice())?;
        proof {
            match port_entries(all.skip(i + 1)) {
                Ok(r) => {
                    assert(acc@ + (seq![x] + r) =~= acc@.push(x) + r);
                },
                Err(k) => {},
            }
        }
        acc.push(x);
        i = i + 1;
    }
    assert(all.skip(i as int) =~= Seq::<Seq<char>>::empty());
    assert(acc@ + Seq::<PortSpec>::empty() =~= acc@);
    Ok(acc)
}

fn local_port_exec(lp: &LocalPort) -> (r: Result<Port, IntErrorKind>)
    requires
        local_port_readable(lp@),
    ensures
        match local_port_spec(lp@) {
            Ok(p) => r is Ok && r->Ok_0@ == p,
            Err(k) => r is Err && r->Err_0 == k,
        },
{
    match lp {
        LocalPort::Any(_) => Ok(Port::Any),
        LocalPort::List { value, count } => {
            if *count == 1 {
                assert(value@[0]@ == value.deep_view()[0]);
                let x = port_entry_exec(chars_of(value[0].as_str()).as_slice())?;
                let mut v: Vec<PortSpec> = Vec::new();
                v.push(x);
                Ok(Port::List(v))
            } else {
                let ps = port_entries_exec(value)?;
                Ok(Port::List(ps))
            }
        },
    }
}

/// Whether reading the firewall's local ports does not panic: a list of
/// one port must hold it.
pub fn local_port_readable_exec(lp: &LocalPort) -> (r: bool)
    ensures
        r == local_port_readable(lp@),
{
    match lp {
        LocalPort::Any(_) => true,
        LocalPort::List { value, count } => *count != 1 || value.len() >= 1,
    }
}

/// The rule that the firewall's description gives:
/// it fails only where a port does not read.
pub fn construct_firewall_rule(rule_raw: FirewallRuleRaw, port_filter_raw: FirewallPortFilterRaw) -> (r: Result<
    FirewallRule,
    String,
>)
    requires
        local_port_readable(port_filter_raw.local_port@),
    ensures
        match local_port_spec(port_filter_raw.local_port@) {
            Ok(p) => r is Ok && r->Ok_0@ == (FirewallRuleView {
                rule_name: rule_raw.display_name@,
                action: raw_action(rule_raw.action),
                direction: raw_direction(rule_raw.direction),
                protocol: port_filter_raw.protocol,
                local_port: p,
                profiles: raw_profiles(rule_raw.profile),
            }),
            Err(k) => r is Err && r->Err_0@ == int_error_text(k),
        },
{
    let local_port = match local_port_exec(&port_filter_raw.local_port) {
        Ok(p) => p,
        Err(k) => return Err(int_error_message(k)),
    };
    let action = if rule_raw.action == 2 {
        Action::Allow
    } else {
        Action::Block
    };
    let direction = if rule_raw.direction == 0 {
        Direction::Outbound
    } else {
        Direction::Inbound
    };
    let profiles: Vec<Profile> = match rule_raw.profile {
        0 => vec![Profile::Any],
        1 => vec![Profile::Domain],
        2 => vec![Profile::Private],
        3 => vec![Profile::Domain, Profile::Private],
        4 => vec![Profile::Public],
        5 => vec![Profile::Domain, Profile::Public],
        6 => vec![Profile::Private, Profile::Public],
        _ => vec![Profile::Domain],
    };
    assert(profiles@ =~= raw_profiles(rule_raw.profile));
    Ok(
        FirewallRule {
            rule_name: rule_raw.display_name,
            action,
            direction,
            protocol: port_filter_raw.protocol,
            local_port,
            profiles,
        },
    )
}

// ------------------------------------------------------------------
// The rule in the rules file
// ------------------------------------------------------------------

pub open spec fn profiles_text(ps: Seq<Profile>) -> Seq<char> {
    join(ps.map_values(|p: Profile| profile_name(p)), ","@)
}

pub open spec fn firewall_to_raw(r: FirewallRuleView) -> RawView {
    RawView {
        method: "firewall"@,
        target: r.rule_name,
        option1: direction_name(r.direction),
        option2: protocol_name(r.protocol) + "/"@ + port_text(r.local_port),
        scope: profiles_text(r.profiles),
        action: action_name(r.action),
    }
}

/// Whether every part names a profile.
pub open spec fn all_profiles(parts: Seq<Seq<char>>) -> bool {
    forall|i: int| 0 <= i < parts.len() ==> (#[trigger] profile_from_name(parts[i])) is Ok
}

/// The rule a raw method describes; `None` where a part of it does not
/// read, on which reading it panics.
pub open spec fn firewall_from_raw(raw: RawView) -> Option<FirewallRuleView> {
    let parts = split(raw.option2, "/"@);
    let profs = split(raw.scope, ","@);
    if action_from_name(raw.action) is Ok && direction_from_name(raw.option1) is Ok && parts.len() >= 2
        && protocol_from_name(parts[0]) is Ok && parse_port_text(parts[1]) is Some && all_profiles(profs) {
        Some(
            FirewallRuleView {
                rule_name: raw.target,
                action: action_from_name(raw.action)->Ok_0,
                direction: direction_from_name(raw.option1)->Ok_0,
                protocol: protocol_from_name(parts[0])->Ok_0,
                local_port: parse_port_text(parts[1])->0,
                profiles: Seq::new(profs.len(), |i: int| profile_from_name(profs[i])->Ok_0),
            },
        )
    } else {
        None
    }
}

fn profiles_string(ps: &Vec<Profile>) -> (r: String)
    ensures
        r@ == profiles_text(ps@),
{
    let mut names: Vec<String> = Vec::new();
    let mut i: usize = 0;
    while i < ps.len()
        invariant
            i <= ps@.len(),
            names@.len() == i,
            forall|j: int| 0 <= j < i ==> (#[trigger] names@[j])@ == profile_name(ps@[j]),
        decreases ps@.len() - i,
    {
        names.push(lit(ps[i].name()));
        i = i + 1;
    }
    assert(names.deep_view() =~= ps@.map_values(|p: Profile| profile_name(p)));
    crate::text::join_strs(names.as_slice(), ",")
}

fn copy_port(p: &Port) -> (r: Port)
    ensures
        r@ == p@,
{
    match p {
        Port::Any => Port::Any,
        Port::List(v) => Port::List(v.clone()),
    }
}

impl FirewallRule {
    pub fn copy(&self) -> (r: FirewallRule)
        ensures
            r@ == self@,
    {
        FirewallRule {
            rule_name: copy_string(&self.rule_name),
            action: self.action,
            direction: self.direction,
            protocol: self.protocol,
            local_port: copy_port(&self.local_port),
            profiles: self.profiles.clone(),
        }
    }

    pub fn to_raw(&self, compare_mode: bool) -> (r: RawMethod)
        ensures
            r@ == firewall_to_raw(self@),
    {
        let a = chars_of(self.protocol.name());
        let b = concat(a.as_slice(), chars_of("/").as_slice());
        let port = self.local_port.text();
        let c = concat(b.as_slice(), chars_of(port.as_str()).as_slice());
        RawMethod {
            method: lit("firewall"),
            target: copy_string(&self.rule_name),
            option1: lit(self.direction.name()),
            option2: string_of(c.as_slice()),
            scope: profiles_string(&self.profiles),
            action: lit(self.action.name()),
        }
    }

    /// Reads a rule from its raw method; the parts must read.
    pub fn from_raw(raw: RawMethod) -> (r: Result<FirewallRule, String>)
        requires
            firewall_from_raw(raw@) is Some,
        ensures
            r is Ok && r->Ok_0@ == firewall_from_raw(raw@)->0,
    {
        let action = match Action::from_name(raw.action.as_str()) {
            Ok(x) => x,
            Err(_) => Action::Block,
        };
        let direction = match Direction::from_name(raw.option1.as_str()) {
            Ok(x) => x,
            Err(_) => Direction::Inbound,
        };
        let slash = vec!['/'];
        let comma = vec![','];
        proof {
            reveal_strlit("/");
            reveal_strlit(",");
        }
        assert(slash@ =~= "/"@);
        assert(comma@ =~= ","@);
        let parts = crate::text::strings_of(&split_chars(chars_of(raw.option2.as_str()).as_slice(), slash.as_slice()));
        let protocol = match Protocol::from_name(parts[0].as_str()) {
            Ok(x) => x,
            Err(_) => Protocol::Any,
        };
        let local_port = match Port::from_text(parts[1].as_str()) {
            Some(p) => p,
            None => Port::Any,
        };
        let profs = crate::text::strings_of(&split_chars(chars_of(raw.scope.as_str()).as_slice(), comma.as_slice()));
        let ghost pv = profs.deep_view();
        let mut profiles: Vec<Profile> = Vec::new();
        let mut i: usize = 0;
        while i < profs.len()
            invariant
                i <= profs@.len(),
                pv == profs.deep_view(),
                all_profiles(pv),
                profiles@.len() == i,
                forall|j: int| 0 <= j < i ==> profiles@[j] == profile_from_name(pv[j])->Ok_0,
            decreases profs@.len() - i,
        {
            assert(profile_from_name(pv[i as int]) is Ok);
            let x = match Profile::from_name(profs[i].as_str()) {
                Ok(x) => x,
                Err(_) => Profile::Any,
            };
            profiles.push(x);
            i = i + 1;
        }
        let r = FirewallRule { rule_name: raw.target, action, direction, protocol, local_port, profiles };
        assert(r@.profiles =~= firewall_from_raw(raw@)->0.profiles);
        Ok(r)
    }
}

// ------------------------------------------------------------------
// PowerShell commands
// ------------------------------------------------------------------

/// The ` -Profile X` flags of a rule, in the rule's order.
pub open spec fn profile_flags(ps: Seq<Profile>) -> Seq<char>
    decreases ps.len(),
{
    if ps.len() == 0 {
        seq![]
    } else {
        profile_flags(ps.drop_last()) + " -Profile "@ + profile_name(ps.last())
    }
}

/// The command that creates a rule; ICMP rules have no local port.
pub open spec fn create_command(r: FirewallRuleView) -> Seq<char> {
    "New-NetFirewallRule -DisplayName \""@ + r.rule_name + "\" -Action "@ + action_name(r.action)
        + " -Direction "@ + direction_name(r.direction) + " -Protocol "@ + protocol_name(r.protocol) + " "@
        + (if r.protocol != Protocol::ICMP {
        "-LocalPort "@ + port_text(r.local_port)
    } else {
        seq![]
    }) + profile_flags(r.profiles)
}

/// The command that deletes the rules of a display name.
pub open spec fn delete_command(name: Seq<char>) -> Seq<char> {
    "Get-NetFirewallRule | Where DisplayName -eq \""@ + name + "\" | Remove-NetFirewallRule"@
}

/// The command that describes the rule of a display name as JSON.
pub open spec fn rule_query_command(name: Seq<char>) -> Seq<char> {
    "Get-NetFirewallRule | Where DisplayName -eq \""@ + name
        + "\" | Select DisplayName,Description,Enabled,Profile,Direction,Action | ConvertTo-Json"@
}

/// The command that describes the port filter of a display name as JSON.
pub open spec fn port_filter_query_command(name: Seq<char>) -> Seq<char> {
    "Get-NetFirewallRule | Where DisplayName -eq \""@ + name
        + "\" | Get-NetFirewallPortFilter | Select Protocol,LocalPort | ConvertTo-Json"@
}

/// What applying a rule runs: the existing rule is deleted first; a rule
/// that should not exist is deleted rather than created.
pub open spec fn execute_commands_spec(r: FirewallRuleView, exists: bool) -> Seq<Seq<char>> {
    (if exists {
        seq![delete_command(r.rule_name)]
    } else {
        seq![]
    }) + seq![
        if r.action == Action::NoExists {
            delete_command(r.rule_name)
        } else {
            create_command(r)
        },
    ]
}

fn append(v: &mut Vec<char>, s: &str)
    ensures
        final(v)@ == old(v)@ + s@,
{
    let c = chars_of(s);
    let mut i: usize = 0;
    let ghost start = v@;
    while i < c.len()
        invariant
            i <= c@.len(),
            c@ == s@,
            v@ == start + c@.take(i as int),
        decreases c@.len() - i,
    {
        v.push(c[i]);
        i = i + 1;
        assert(start + c@.take(i as int) =~= (start + c@.take(i - 1)).push(c@[i - 1]));
    }
    assert(c@.take(c@.len() as int) =~= c@);
}

fn named_command(head: &str, name: &str, tail: &str) -> (r: String)
    ensures
        r@ == head@ + name@ + tail@,
{
    let mut v: Vec<char> = Vec::new();
    append(&mut v, head);
    append(&mut v, name);
    append(&mut v, tail);
    assert(Seq::<char>::empty() + head@ =~= head@);
    string_of(v.as_slice())
}

/// The command that deletes the rules of a display name.
pub fn delete_rule_command(name: &str) -> (r: String)
    ensures
        r@ == delete_command(name@),
{
    named_command("Get-NetFirewallRule | Where DisplayName -eq \"", name, "\" | Remove-NetFirewallRule")
}

/// The command that describes the rule of a display name as JSON.
pub fn rule_query(name: &str) -> (r: String)
    ensures
        r@ == rule_query_command(name@),
{
    named_command(
        "Get-NetFirewallRule | Where DisplayName -eq \"",
        name,
        "\" | Select DisplayName,Description,Enabled,Profile,Direction,Action | ConvertTo-Json",
    )
}

/// The command that describes the port filter of a display name as JSON.
pub fn port_filter_query(name: &str) -> (r: String)
    ensures
        r@ == port_filter_query_command(name@),
{
    named_command(
        "Get-NetFirewallRule | Where DisplayName -eq \"",
        name,
        "\" | Get-NetFirewallPortFilter | Select Protocol,LocalPort | ConvertTo-Json",
    )
}

impl FirewallRule {
    /// The command that creates this rule.
    pub fn create_command(&self) -> (r: String)
        ensures
            r@ == create_command(self@),
    {
        let mut v: Vec<char> = Vec::new();
        append(&mut v, "New-NetFirewallRule -DisplayName \"");
        append(&mut v, self.rule_name.as_str());
        append(&mut v, "\" -Action ");
        append(&mut v, self.action.name());
        append(&mut v, " -Direction ");
        append(&mut v, self.direction.name());
        append(&mut v, " -Protocol ");
        append(&mut v, self.protocol.name());
        append(&mut v, " ");
        if self.protocol != Protocol::ICMP {
            append(&mut v, "-LocalPort ");
            let t = self.local_port.text();
            append(&mut v, t.as_str());
        }
        let ghost head = v@;
        let mut i: usize = 0;
        assert(self.profiles@.take(0) =~= Seq::<Profile>::empty());
        while i < self.profiles.len()
            invariant
                i <= self.profiles@.len(),
                v@ == head + profile_flags(self.profiles@.take(i as int)),
            decreases self.profiles@.len() - i,
        {
            append(&mut v, " -Profile ");
            append(&mut v, self.profiles[i].name());
            let ghost t = self.profiles@.take(i + 1);
            assert(t.drop_last() =~= self.profiles@.take(i as int));
            i = i + 1;
        }
        assert(self.profiles@.take(i as int) =~= self.profiles@);
        let r = string_of(v.as_slice());
        assert(r@ =~= create_command(self@));
        r
    }

    /// The commands that apply this rule, in order, given whether a rule of
    /// its name exists now.
    pub fn execute_commands(&self, exists: bool) -> (r: Vec<String>)
        ensures
            r.deep_view() == execute_commands_spec(self@, exists),
    {
        let mut r: Vec<String> = Vec::new();
        if exists {
            r.push(delete_rule_command(self.rule_name.as_str()));
        }
        if self.action == Action::NoExists {
            r.push(delete_rule_command(self.rule_name.as_str()));
        } else {
            r.push(self.create_command());
        }
        assert(r.deep_view() =~= execute_commands_spec(self@, exists));
        r
    }

    /// The rule as it is now, as a raw method: `found` is the rule of this
    /// name that the firewall described, `None` where it has none.
    pub fn current_value(&self, found: Option<FirewallRule>) -> (r: RawMethod)
        ensures
            r@ == match found {
                Some(f) => firewall_to_raw(f@),
                None => firewall_to_raw(FirewallRuleView { action: Action::NoExists, ..self@ }),
            },
    {
        match found {
            Some(f) => f.to_raw(false),
            None => {
                let mut rule = self.copy();
                rule.action = Action::NoExists;
                rule.to_raw(false)
            },
        }
    }
}

// ------------------------------------------------------------------
// What is written is read back
// ------------------------------------------------------------------

pub open spec fn is_digit(c: char) -> bool {
    0x30 <= (c as u32) <= 0x39
}

/// A port list that reads back from its text: any port, or a list that
/// is not empty.
pub open spec fn port_rereadable(p: PortView) -> bool {
    p matches PortView::List(ps) ==> ps.len() > 0
}

proof fn lemma_decimal_digits(n: nat)
    ensures
        decimal(n).len() > 0,
        forall|i: int| 0 <= i < decimal(n).len() ==> is_digit(#[trigger] decimal(n)[i]),
{
    crate::lgpo::lemma_decimal_chars(n);
    assert forall|i: int| 0 <= i < decimal(n).len() implies is_digit(#[trigger] decimal(n)[i]) by {
        assert(0x30 <= (decimal(n)[i] as u32) <= 0x39);
    }
}

proof fn lemma_port_spec_text(x: PortSpec)
    ensures
        port_spec_text(x).len() > 0,
        is_digit(port_spec_text(x)[0]),
        forall|i: int| 0 <= i < port_spec_text(x).len() ==> (is_digit(#[trigger] port_spec_text(x)[i]) || port_spec_text(x)[i] == '-'),
        parse_port_spec(port_spec_text(x)) == Some(x),
{
    reveal_strlit("-");
    assert("-"@ =~= seq!['-']);
    match x {
        PortSpec::Single(n) => {
            lemma_decimal_digits(n as nat);
            let d = decimal(n as nat);
            assert forall|i: int| 0 <= i < d.len() implies d[i] != '-' by {
                assert(is_digit(d[i]));
            }
            crate::text::lemma_find_single_absent(d, '-');
            crate::num::lemma_decimal_roundtrip(n as nat, u16::MAX as nat);
        },
        PortSpec::Range { start, end } => {
            lemma_decimal_digits(start as nat);
            lemma_decimal_digits(end as nat);
            let a = decimal(start as nat);
            let b = decimal(end as nat);
            let t = a + seq!['-'] + b;
            assert(port_spec_text(x) =~= t);
            assert forall|i: int| 0 <= i < a.len() implies a[i] != '-' by {
                assert(is_digit(a[i]));
            }
            crate::text::lemma_split_once_at(a, '-', b);
            crate::num::lemma_decimal_roundtrip(start as nat, u16::MAX as nat);
            crate::num::lemma_decimal_roundtrip(end as nat, u16::MAX as nat);
            assert(t[0] == a[0]);
            assert forall|i: int| 0 <= i < t.len() implies (is_digit(#[trigger] t[i]) || t[i] == '-') by {
                if i < a.len() {
                    assert(t[i] == a[i]);
                } else if i > a.len() {
                    assert(t[i] == b[i - a.len() - 1]);
                }
            }
        },
    }
}

/// The text of a port list, not empty where it is a list, reads back as
/// that list.
pub proof fn lemma_port_text_roundtrip(p: PortView)
    requires
        port_rereadable(p),
    ensures
        parse_port_text(port_text(p)) == Some(p),
        forall|i: int| 0 <= i < port_text(p).len() ==> (#[trigger] port_text(p)[i]) != '/',
{
    reveal_strlit("Any");
    reveal_strlit(",");
    assert("Any"@ =~= seq!['A', 'n', 'y']);
    assert(","@ =~= seq![',']);
    match p {
        PortView::Any => {},
        PortView::List(ps) => {
            let texts = ps.map_values(|x: PortSpec| port_spec_text(x));
            assert forall|i: int| 0 <= i < texts.len() implies #[trigger] texts[i] == port_spec_text(ps[i]) by {}
            assert forall|i: int| 0 <= i < ps.len() implies parse_port_spec(#[trigger] texts[i]) == Some(ps[i]) by {
                lemma_port_spec_text(ps[i]);
            }
            assert forall|i: int, j: int| 0 <= i < texts.len() && 0 <= j < texts[i].len() implies #[trigger] texts[i][j]
                != ',' && texts[i][j] != '/' && (is_digit(texts[i][j]) || texts[i][j] == '-' || texts[i][j] == ',') by {
                lemma_port_spec_text(ps[i]);
            }
            crate::text::lemma_split_join_single(texts, ',');
            lemma_port_spec_text(ps[0]);
            crate::text::lemma_join_first(texts, seq![',']);
            let t = join(texts, seq![',']);
            assert(t[0] != 'A') by {
                assert(is_digit(t[0]));
            }
            assert(t != "Any"@);
            let ok = |c: char| is_digit(c) || c == '-' || c == ',';
            crate::text::lemma_join_chars(texts, seq![','], ok);
            assert forall|i: int| 0 <= i < t.len() implies (#[trigger] t[i]) != '/' by {
                assert(ok(t[i]));
            }
            let chunks = split(t, ","@);
            assert(chunks == texts);
            assert(Seq::new(chunks.len(), |i: int| parse_port_spec(chunks[i])->0) =~= ps);
        },
    }
}

/// The rules that read back from their raw method: a port list that is
/// not empty, and at least one profile.
pub open spec fn rule_rereadable(r: FirewallRuleView) -> bool {
    port_rereadable(r.local_port) && r.profiles.len() > 0
}

proof fn lemma_protocol_no_slash(p: Protocol)
    ensures
        protocol_name(p).len() > 0,
        forall|i: int| 0 <= i < protocol_name(p).len() ==> (#[trigger] protocol_name(p)[i]) != '/',
{
    lemma_protocol_names();
}

proof fn lemma_profile_no_comma(p: Profile)
    ensures
        forall|i: int| 0 <= i < profile_name(p).len() ==> (#[trigger] profile_name(p)[i]) != ',',
{
    lemma_profile_names();
}

/// A rule read from its raw method is the rule written, where its port
/// list and its profiles are not empty.
pub proof fn lemma_firewall_raw_roundtrip(r: FirewallRuleView)
    requires
        rule_rereadable(r),
    ensures
        firewall_from_raw(firewall_to_raw(r)) == Some(r),
{
    reveal_strlit("/");
    reveal_strlit(",");
    assert("/"@ =~= seq!['/']);
    assert(","@ =~= seq![',']);
    let raw = firewall_to_raw(r);
    lemma_action_name_roundtrip(r.action);
    lemma_direction_name_roundtrip(r.direction);
    lemma_protocol_name_roundtrip(r.protocol);
    lemma_port_text_roundtrip(r.local_port);
    lemma_protocol_no_slash(r.protocol);
    let pn = protocol_name(r.protocol);
    let pt = port_text(r.local_port);
    crate::text::lemma_join_two(pn, pt, '/');
    assert(raw.option2 =~= join(seq![pn, pt], seq!['/']));
    crate::text::lemma_split_join_single(seq![pn, pt], '/');
    let parts = split(raw.option2, "/"@);
    assert(parts == seq![pn, pt]);
    let names = r.profiles.map_values(|p: Profile| profile_name(p));
    assert forall|i: int, j: int| 0 <= i < names.len() && 0 <= j < names[i].len() implies #[trigger] names[i][j]
        != ',' by {
        lemma_profile_no_comma(r.profiles[i]);
    }
    crate::text::lemma_split_join_single(names, ',');
    let profs = split(raw.scope, ","@);
    assert(profs == names);
    assert forall|i: int| 0 <= i < profs.len() implies (#[trigger] profile_from_name(profs[i])) == Ok::<
        Profile,
        Seq<char>,
    >(r.profiles[i]) by {
        lemma_profile_name_roundtrip(r.profiles[i]);
    }
    assert(Seq::new(profs.len(), |i: int| profile_from_name(profs[i])->Ok_0) =~= r.profiles);
}

/// Whether a raw method reads as a rule (reading it panics where not).
pub fn firewall_readable(raw: &RawMethod) -> (r: bool)
    ensures
        r == firewall_from_raw(raw@) is Some,
{
    if Action::from_name(raw.action.as_str()).is_err() || Direction::from_name(raw.option1.as_str()).is_err() {
        return false;
    }
    let slash = vec!['/'];
    let comma = vec![','];
    proof {
        reveal_strlit("/");
        reveal_strlit(",");
    }
    assert(slash@ =~= "/"@);
    assert(comma@ =~= ","@);
    let parts = crate::text::strings_of(&split_chars(chars_of(raw.option2.as_str()).as_slice(), slash.as_slice()));
    if parts.len() < 2 {
        return false;
    }
    assert(parts.deep_view()[0] == parts@[0]@ && parts.deep_view()[1] == parts@[1]@);
    if Protocol::from_name(parts[0].as_str()).is_err() || Port::from_text(parts[1].as_str()).is_none() {
        return false;
    }
    let profs = crate::text::strings_of(&split_chars(chars_of(raw.scope.as_str()).as_slice(), comma.as_slice()));
    let ghost pv = profs.deep_view();
    let mut i: usize = 0;
    while i < profs.len()
        invariant
            i <= profs@.len(),
            pv == profs.deep_view(),
            pv == split(raw@.scope, ","@),
            forall|j: int| 0 <= j < i ==> (#[trigger] profile_from_name(pv[j])) is Ok,
        decreases profs@.len() - i,
    {
        assert(pv[i as int] == profs@[i as int]@);
        if Profile::from_name(profs[i].as_str()).is_err() {
            assert(!all_profiles(pv));
            return false;
        }
        i = i + 1;
    }
    true
}

/// Whether `t` occurs in `s` at position `i`.
pub open spec fn occurs_at(s: Seq<char>, t: Seq<char>, i: int) -> bool {
    0 <= i && i + t.len() <= s.len() && s.subrange(i, i + t.len()) == t
}

/// The command that creates a rule restricts every rule but an ICMP one to
/// its local port: it holds `-LocalPort ` followed by the text of the
/// rule's port, and it names the rule's protocol after `-Protocol `.
pub proof fn lemma_create_command_port(r: FirewallRuleView)
    ensures
        r.protocol != Protocol::ICMP ==> exists|i: int| #[trigger]
            occurs_at(create_command(r), "-LocalPort "@ + port_text(r.local_port), i),
        exists|i: int| #[trigger] occurs_at(create_command(r), " -Protocol "@ + protocol_name(r.protocol) + " "@, i),
        crate::text::contains(create_command(r), " -Protocol "@ + protocol_name(r.protocol) + " "@),
        r.protocol != Protocol::ICMP ==> crate::text::contains(
            create_command(r),
            "-LocalPort "@ + port_text(r.local_port),
        ),
{
    let head = "New-NetFirewallRule -DisplayName \""@ + r.rule_name + "\" -Action "@ + action_name(r.action)
        + " -Direction "@ + direction_name(r.direction);
    let proto = " -Protocol "@ + protocol_name(r.protocol) + " "@;
    let tail = if r.protocol != Protocol::ICMP {
        "-LocalPort "@ + port_text(r.local_port)
    } else {
        seq![]
    };
    let c = create_command(r);
    assert(c =~= head + proto + tail + profile_flags(r.profiles));
    let i = head.len() as int;
    assert(c.subrange(i, i + proto.len()) =~= proto);
    assert(occurs_at(c, proto, i));
    assert(c.skip(i).take(proto.len() as int) =~= proto);
    crate::text::lemma_find_some(c, proto);
    if r.protocol != Protocol::ICMP {
        let j = (head.len() + proto.len()) as int;
        assert(c.subrange(j, j + tail.len()) =~= tail);
        assert(occurs_at(c, tail, j));
        assert(c.skip(j).take(tail.len() as int) =~= tail);
        crate::text::lemma_find_some(c, tail);
    }
}

/// The firewall's numbers read as it documents them: action 2 is allow and
/// the others block; direction 0 is outbound and the others inbound; a
/// profile number from 1 to 6 holds the domain, private and public
/// profiles by its bits 1, 2 and 4, each once and in that order; 0 is any
/// profile.
pub proof fn lemma_raw_numbers(a: u8, d: u8, p: u8)
    ensures
        (raw_action(a) == Action::Allow) <==> a == 2,
        raw_action(a) != Action::NoExists,
        (raw_direction(d) == Direction::Outbound) <==> d == 0,
        raw_profiles(0) == seq![Profile::Any],
        1 <= p <= 6 ==> {
            &&& raw_profiles(p).contains(Profile::Domain) <==> p % 2 == 1
            &&& raw_profiles(p).contains(Profile::Private) <==> (p / 2) % 2 == 1
            &&& raw_profiles(p).contains(Profile::Public) <==> p >= 4
            &&& !raw_profiles(p).contains(Profile::Any)
            &&& raw_profiles(p).len() == (p % 2) + ((p / 2) % 2) + (if p >= 4 { 1int } else { 0int })
        },
{
    if 1 <= p <= 6 {
        let v = raw_profiles(p);
        if p == 1 {
            assert(v[0] == Profile::Domain);
        } else if p == 2 {
            assert(v[0] == Profile::Private);
        } else if p == 3 {
            assert(v[0] == Profile::Domain && v[1] == Profile::Private);
        } else if p == 4 {
            assert(v[0] == Profile::Public);
        } else if p == 5 {
            assert(v[0] == Profile::Domain && v[1] == Profile::Public);
        } else {
            assert(v[0] == Profile::Private && v[1] == Profile::Public);
        }
    }
}

/// Applying a rule deletes an existing rule of its name first, and then
/// creates it, or, for a rule that should not exist, deletes it.
pub proof fn lemma_execute_commands_order(r: FirewallRuleView, exists: bool)
    ensures
        ({
            let cs = execute_commands_spec(r, exists);
            &&& cs.len() == if exists { 2int } else { 1int }
            &&& exists ==> cs[0] == delete_command(r.rule_name)
            &&& cs.last() == if r.action == Action::NoExists {
                delete_command(r.rule_name)
            } else {
                create_command(r)
            }
        }),
{
}

} // verus!
