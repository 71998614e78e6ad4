//! Advanced audit policy: the audit settings of subcategories, as the
//! audit file of the local policy holds them.
use vstd::prelude::*;

use crate::i18n::{audit_header_table, audit_parameter_table, key_for, key_for_exec, lookup, lookup_exec, pairs_view};
use crate::lgpo::copy_string;
use crate::raw::{lit, str_lowercase, to_lowercase, RawMethod, RawView};
use crate::text::{chars_of, concat, join, rview, str_eq, string_of, trim, trim_str, unknown_variant, unknown_variant_message};

verus! {

/// The auditing of a subcategory: its number in the audit file is -1 (disabled) to 3 (success and failure).
#[derive(Debug, Clone, Copy, PartialEq, Eq, Structural)]
pub enum AuditParameter {
    Disabled,
    NoAuditing,
    Success,
    Failure,
    SuccessAndFailure,
}

/// How each `AuditParameter` is written in text.
pub open spec fn audit_parameter_name(x: AuditParameter) -> Seq<char> {
    match x {
        AuditParameter::Disabled => "disabled"@,
        AuditParameter::NoAuditing => "no_auditing"@,
        AuditParameter::Success => "success"@,
        AuditParameter::Failure => "failure"@,
        AuditParameter::SuccessAndFailure => "success_and_failure"@,
    }
}

pub open spec fn audit_parameter_names() -> Seq<Seq<char>> {
    seq!["disabled"@, "no_auditing"@, "success"@, "failure"@, "success_and_failure"@]
}

/// Reads the `AuditParameter` written as `s`; any other text is an unknown variant.
pub open spec fn audit_parameter_from_name(s: Seq<char>) -> Result<AuditParameter, Seq<char>> {
    if s == "disabled"@ {
        Ok(AuditParameter::Disabled)
    } else if s == "no_auditing"@ {
        Ok(AuditParameter::NoAuditing)
    } else if s == "success"@ {
        Ok(AuditParameter::Success)
    } else if s == "failure"@ {
        Ok(AuditParameter::Failure)
    } else if s == "success_and_failure"@ {
        Ok(AuditParameter::SuccessAndFailure)
    } else {
        Err(unknown_variant(s, audit_parameter_names()))
    }
}

impl AuditParameter {
    pub fn name(&self) -> (r: &'static str)
        ensures
            r@ == audit_parameter_name(*self),
    {
        match self {
            AuditParameter::Disabled => "disabled",
            AuditParameter::NoAuditing => "no_auditing",
            AuditParameter::Success => "success",
            AuditParameter::Failure => "failure",
            AuditParameter::SuccessAndFailure => "success_and_failure",
        }
    }

    /// Reads the `AuditParameter` written as `s`.
    pub fn from_name(s: &str) -> (r: Result<AuditParameter, String>)
        ensures
            match audit_parameter_from_name(s@) {
                Ok(x) => r == Ok::<AuditParameter, String>(x),
                Err(e) => r is Err && r->Err_0@ == e,
            },
    {
        let names: Vec<&str> = vec!["disabled", "no_auditing", "success", "failure", "success_and_failure"];
        if str_eq(s, "disabled") {
            Ok(AuditParameter::Disabled)
        } else if str_eq(s, "no_auditing") {
            Ok(AuditParameter::NoAuditing)
        } else if str_eq(s, "success") {
            Ok(AuditParameter::Success)
        } else if str_eq(s, "failure") {
            Ok(AuditParameter::Failure)
        } else if str_eq(s, "success_and_failure") {
            Ok(AuditParameter::SuccessAndFailure)
        } else {
            assert(names@.map_values(|n: &str| n@) =~= audit_parameter_names());
            let v = chars_of(s);
            Err(unknown_variant_message(v.as_slice(), &names))
        }
    }
}

proof fn lemma_audit_parameter_names()
    ensures
        "disabled"@ == seq!['d', 'i', 's', 'a', 'b', 'l', 'e', 'd'],
        "no_auditing"@ == seq!['n', 'o', '_', 'a', 'u', 'd', 'i', 't', 'i', 'n', 'g'],
        "success"@ == seq!['s', 'u', 'c', 'c', 'e', 's', 's'],
        "failure"@ == seq!['f', 'a', 'i', 'l', 'u', 'r', 'e'],
        "success_and_failure"@ == seq!['s', 'u', 'c', 'c', 'e', 's', 's', '_', 'a', 'n', 'd', '_', 'f', 'a', 'i', 'l', 'u', 'r', 'e'],
{
    reveal_strlit("disabled");
    reveal_strlit("no_auditing");
    reveal_strlit("success");
    reveal_strlit("failure");
    reveal_strlit("success_and_failure");
    assert("disabled"@ =~= seq!['d', 'i', 's', 'a', 'b', 'l', 'e', 'd']);
    assert("no_auditing"@ =~= seq!['n', 'o', '_', 'a', 'u', 'd', 'i', 't', 'i', 'n', 'g']);
    assert("success"@ =~= seq!['s', 'u', 'c', 'c', 'e', 's', 's']);
    assert("failure"@ =~= seq!['f', 'a', 'i', 'l', 'u', 'r', 'e']);
    assert("success_and_failure"@ =~= seq!['s', 'u', 'c', 'c', 'e', 's', 's', '_', 'a', 'n', 'd', '_', 'f', 'a', 'i', 'l', 'u', 'r', 'e']);
}

/// The text of each `AuditParameter` reads back as it.
pub proof fn lemma_audit_parameter_name_roundtrip(x: AuditParameter)
    ensures
        audit_parameter_from_name(audit_parameter_name(x)) == Ok::<AuditParameter, Seq<char>>(x),
{
    lemma_audit_parameter_names();
    assert("disabled"@.len() != "no_auditing"@.len());
    assert("disabled"@.len() != "success"@.len());
    assert("disabled"@.len() != "failure"@.len());
    assert("disabled"@.len() != "success_and_failure"@.len());
    assert("no_auditing"@.len() != "success"@.len());
    assert("no_auditing"@.len() != "failure"@.len());
    assert("no_auditing"@.len() != "success_and_failure"@.len());
    assert("success"@[0] != "failure"@[0]);
    assert("success"@.len() != "success_and_failure"@.len());
    assert("failure"@.len() != "success_and_failure"@.len());
}

/// The number of an audit setting in the audit file.
pub open spec fn audit_number(p: AuditParameter) -> i8 {
    match p {
        AuditParameter::Disabled => -1i8,
        AuditParameter::NoAuditing => 0i8,
        AuditParameter::Success => 1i8,
        AuditParameter::Failure => 2i8,
        AuditParameter::SuccessAndFailure => 3i8,
    }
}

/// The value that the audit file records with a setting: its number, and
/// 0 for a disabled one.
pub open spec fn parameter_value_of(p: AuditParameter) -> i8 {
    if audit_number(p) == -1 {
        0i8
    } else {
        audit_number(p)
    }
}

impl AuditParameter {
    pub fn number(&self) -> (r: i8)
        ensures
            r == audit_number(*self),
    {
        match self {
            AuditParameter::Disabled => -1,
            AuditParameter::NoAuditing => 0,
            AuditParameter::Success => 1,
            AuditParameter::Failure => 2,
            AuditParameter::SuccessAndFailure => 3,
        }
    }
}

/// One line of the audit file: the audit settings of a subcategory.
#[derive(Debug)]
pub struct AuditStrategy {
    pub computer_name: String,
    pub target: String,
    pub sub_category: String,
    pub guid: String,
    pub inclusion_parameter: Option<AuditParameter>,
    pub exclusion_parameter: Option<AuditParameter>,
    pub parameter_value: Option<i8>,
}

pub struct AuditStrategyView {
    pub computer_name: Seq<char>,
    pub target: Seq<char>,
    pub sub_category: Seq<char>,
    pub guid: Seq<char>,
    pub inclusion_parameter: Option<AuditParameter>,
    pub exclusion_parameter: Option<AuditParameter>,
    pub parameter_value: Option<i8>,
}

impl View for AuditStrategy {
    type V = AuditStrategyView;

    open spec fn view(&self) -> AuditStrategyView {
        AuditStrategyView {
            computer_name: self.computer_name@,
            target: self.target@,
            sub_category: self.sub_category@,
            guid: self.guid@,
            inclusion_parameter: self.inclusion_parameter,
            exclusion_parameter: self.exclusion_parameter,
            parameter_value: self.parameter_value,
        }
    }
}

pub open spec fn strategies_view(v: Seq<AuditStrategy>) -> Seq<AuditStrategyView> {
    v.map_values(|s: AuditStrategy| s@)
}

/// The audit setting of a subcategory, found by its GUID.
#[derive(Debug)]
pub struct AdvancedAuditing {
    pub guid: String,
    pub value: AuditParameter,
}

pub struct AdvancedAuditingView {
    pub guid: Seq<char>,
    pub value: AuditParameter,
}

impl View for AdvancedAuditing {
    type V = AdvancedAuditingView;

    open spec fn view(&self) -> AdvancedAuditingView {
        AdvancedAuditingView { guid: self.guid@, value: self.value }
    }
}

/// GUIDs are compared without regard to case.
pub open spec fn same_guid(a: Seq<char>, b: Seq<char>) -> bool {
    str_lowercase(a) == str_lowercase(b)
}

/// The first strategy whose GUID is this one's.
pub open spec fn find_strategy(v: Seq<AuditStrategyView>, guid: Seq<char>) -> Option<int> {
    if exists|i: int| 0 <= i < v.len() && same_guid(#[trigger] v[i].guid, guid) {
        Some(
            choose|i: int|
                0 <= i < v.len() && same_guid(#[trigger] v[i].guid, guid) && forall|j: int|
                    0 <= j < i ==> !same_guid(#[trigger] v[j].guid, guid),
        )
    } else {
        None
    }
}

proof fn lemma_find_strategy(v: Seq<AuditStrategyView>, guid: Seq<char>, k: int)
    requires
        0 <= k < v.len(),
        same_guid(v[k].guid, guid),
        forall|j: int| 0 <= j < k ==> !same_guid(#[trigger] v[j].guid, guid),
    ensures
        find_strategy(v, guid) == Some(k),
{
    let i = choose|i: int|
        0 <= i < v.len() && same_guid(#[trigger] v[i].guid, guid) && forall|j: int|
            0 <= j < i ==> !same_guid(#[trigger] v[j].guid, guid);
    assert(0 <= i < v.len() && same_guid(v[i].guid, guid) && forall|j: int|
        0 <= j < i ==> !same_guid(#[trigger] v[j].guid, guid));
    if i < k {
        assert(!same_guid(v[i].guid, guid));
    }
    if k < i {
        assert(!same_guid(v[k].guid, guid));
    }
}

pub open spec fn auditing_to_raw(a: AdvancedAuditingView, compare_mode: bool) -> RawView {
    RawView {
        method: "advanced_auditing"@,
        target: if compare_mode {
            str_lowercase(a.guid)
        } else {
            a.guid
        },
        option1: seq![],
        option2: seq![],
        scope: seq![],
        action: audit_parameter_name(a.value),
    }
}

pub open spec fn auditing_from_raw(r: RawView) -> Result<AdvancedAuditingView, Seq<char>> {
    match audit_parameter_from_name(r.action) {
        Ok(p) => Ok(AdvancedAuditingView { guid: str_lowercase(r.target), value: p }),
        Err(e) => Err("Failed to deserialize action: "@ + e),
    }
}

/// A strategy after its subcategory is set to `p`.
pub open spec fn with_parameter(s: AuditStrategyView, p: AuditParameter) -> AuditStrategyView {
    AuditStrategyView { inclusion_parameter: Some(p), parameter_value: Some(parameter_value_of(p)), ..s }
}

pub open spec fn not_found_message(guid: Seq<char>) -> Seq<char> {
    "Audit strategy with GUID "@ + str_lowercase(guid)
        + " not found, ensure the audit guid is present in audit.csv and the latest admx for the windows version are installed"@
}

/// What setting a subcategory reads, as a raw method: the first strategy
/// of its GUID with its setting (disabled when it has none), or the
/// lowercase GUID as disabled.
pub open spec fn auditing_current(v: Seq<AuditStrategyView>, a: AdvancedAuditingView) -> RawView {
    match find_strategy(v, a.guid) {
        Some(i) => auditing_to_raw(
            AdvancedAuditingView {
                guid: v[i].guid,
                value: match v[i].inclusion_parameter {
                    Some(p) => p,
                    None => AuditParameter::Disabled,
                },
            },
            false,
        ),
        None => auditing_to_raw(
            AdvancedAuditingView { guid: str_lowercase(a.guid), value: AuditParameter::Disabled },
            false,
        ),
    }
}

fn copy_strategy(s: &AuditStrategy) -> (r: AuditStrategy)
    ensures
        r@ == s@,
{
    AuditStrategy {
        computer_name: copy_string(&s.computer_name),
        target: copy_string(&s.target),
        sub_category: copy_string(&s.sub_category),
        guid: copy_string(&s.guid),
        inclusion_parameter: s.inclusion_parameter,
        exclusion_parameter: s.exclusion_parameter,
        parameter_value: s.parameter_value,
    }
}

fn find_strategy_exec(v: &Vec<AuditStrategy>, guid: &str) -> (r: Option<usize>)
    ensures
        match r {
            Some(i) => i < v@.len() && find_strategy(strategies_view(v@), guid@) == Some(i as int),
            None => find_strategy(strategies_view(v@), guid@) is None,
        },
{
    let ghost sv = strategies_view(v@);
    let key = to_lowercase(guid);
    let mut i: usize = 0;
    while i < v.len()
        invariant
            i <= v@.len(),
            sv == strategies_view(v@),
            key@ == str_lowercase(guid@),
            forall|j: int| 0 <= j < i ==> !same_guid(#[trigger] sv[j].guid, guid@),
        decreases v@.len() - i,
    {
        let k = to_lowercase(v[i].guid.as_str());
        assert(sv[i as int].guid == v@[i as int].guid@);
        if str_eq(k.as_str(), key.as_str()) {
            proof {
                lemma_find_strategy(sv, guid@, i as int);
            }
            return Some(i);
        }
        i = i + 1;
    }
    None
}

impl AdvancedAuditing {
    pub fn to_raw(&self, compare_mode: bool) -> (r: RawMethod)
        ensures
            r@ == auditing_to_raw(self@, compare_mode),
    {
        let target = if compare_mode {
            to_lowercase(self.guid.as_str())
        } else {
            copy_string(&self.guid)
        };
        let r = RawMethod {
            method: lit("advanced_auditing"),
            target,
            option1: lit(""),
            option2: lit(""),
            scope: lit(""),
            action: lit(self.value.name()),
        };
        proof {
            reveal_strlit("");
        }
        assert(r@.option1 =~= Seq::<char>::empty());
        r
    }

    pub fn from_raw(raw: RawMethod) -> (r: Result<AdvancedAuditing, String>)
        ensures
            rview(r) == auditing_from_raw(raw@),
    {
        match AuditParameter::from_name(raw.action.as_str()) {
            Ok(p) => Ok(AdvancedAuditing { guid: to_lowercase(raw.target.as_str()), value: p }),
            Err(e) => {
                let a = chars_of("Failed to deserialize action: ");
                let b = concat(a.as_slice(), chars_of(e.as_str()).as_slice());
                Err(string_of(b.as_slice()))
            },
        }
    }

    /// Sets the subcategory's audit setting in the strategies.
    pub fn execute(&self, strategies: &mut Vec<AuditStrategy>) -> (r: Result<(), String>)
        ensures
            match find_strategy(strategies_view(old(strategies)@), self.guid@) {
                Some(i) => r is Ok && strategies_view(final(strategies)@) == strategies_view(
                    old(strategies)@,
                ).update(i, with_parameter(strategies_view(old(strategies)@)[i], self.value)),
                None => r is Err && r->Err_0@ == not_found_message(self.guid@) && final(strategies)@
                    == old(strategies)@,
            },
    {
        match find_strategy_exec(strategies, self.guid.as_str()) {
            Some(i) => {
                let old_s = copy_strategy(&strategies[i]);
                let n = self.value.number();
                let pv: i8 = if n == -1 {
                    0
                } else {
                    n
                };
                let s = AuditStrategy {
                    inclusion_parameter: Some(self.value),
                    parameter_value: Some(pv),
                    ..old_s
                };
                let ghost before = strategies@;
                strategies.set(i, s);
                assert(strategies_view(strategies@) =~= strategies_view(before).update(
                    i as int,
                    with_parameter(strategies_view(before)[i as int], self.value),
                ));
                Ok(())
            },
            None => {
                let a = chars_of("Audit strategy with GUID ");
                let g = to_lowercase(self.guid.as_str());
                let b = concat(a.as_slice(), chars_of(g.as_str()).as_slice());
                let c = concat(
                    b.as_slice(),
                    chars_of(
                        " not found, ensure the audit guid is present in audit.csv and the latest admx for the windows version are installed",
                    ).as_slice(),
                );
                Err(string_of(c.as_slice()))
            },
        }
    }

    /// The subcategory's current audit setting in the strategies.
    pub fn current_value(&self, strategies: &Vec<AuditStrategy>) -> (r: RawMethod)
        ensures
            r@ == auditing_current(strategies_view(strategies@), self@),
    {
        match find_strategy_exec(strategies, self.guid.as_str()) {
            Some(i) => {
                let value = match strategies[i].inclusion_parameter {
                    Some(p) => p,
                    None => AuditParameter::Disabled,
                };
                AdvancedAuditing { guid: copy_string(&strategies[i].guid), value }.to_raw(false)
            },
            None => AdvancedAuditing {
                guid: to_lowercase(self.guid.as_str()),
                value: AuditParameter::Disabled,
            }.to_raw(false),
        }
    }
}

// ------------------------------------------------------------------
// The localized audit file
// ------------------------------------------------------------------

/// The standard name of a localized setting text (its key in the
/// locale's table, else the text itself).
pub open spec fn normalized_parameter(t: Seq<(Seq<char>, Seq<char>)>, s: Seq<char>) -> Seq<char> {
    match key_for(t, s) {
        Some(k) => k,
        None => s,
    }
}

/// Reads the setting in a cell of the audit file: an empty cell has none;
/// the locale must have a table of names.
pub open spec fn parameter_from_text(locale: Seq<char>, s: Seq<char>) -> Result<Option<AuditParameter>, Seq<char>> {
    if trim(s).len() == 0 {
        Ok(None)
    } else {
        match audit_parameter_table(locale) {
            None => Err("Unsupported locale"@),
            Some(t) => Ok(Some(audit_parameter_from_name(normalized_parameter(t, s))->Ok_0)),
        }
    }
}

/// A cell that reading does not panic on: empty, in a locale without a
/// table, or naming a setting.
pub open spec fn parameter_text_readable(locale: Seq<char>, s: Seq<char>) -> bool {
    trim(s).len() == 0 || match audit_parameter_table(locale) {
        None => true,
        Some(t) => audit_parameter_from_name(normalized_parameter(t, s)) is Ok,
    }
}

/// The cell written for a setting: its localized name, empty where the
/// table lacks it or there is no setting.
pub open spec fn parameter_to_text(locale: Seq<char>, p: Option<AuditParameter>) -> Result<Seq<char>, Seq<char>> {
    match p {
        None => Ok(seq![]),
        Some(x) => match audit_parameter_table(locale) {
            None => Err("Unsupported locale"@),
            Some(t) => Ok(
                match lookup(t, audit_parameter_name(x)) {
                    Some(l) => l,
                    None => seq![],
                },
            ),
        },
    }
}

/// Whether reading a cell of the audit file does not panic.
pub fn parameter_text_readable_exec(locale: &str, s: &str) -> (r: bool)
    ensures
        r == parameter_text_readable(locale@, s@),
{
    let t = trim_str(s);
    if t.len() == 0 {
        return true;
    }
    match crate::i18n::audit_parameters(locale) {
        None => true,
        Some(table) => {
            let normalized = match key_for_exec(&table, s) {
                Some(k) => k,
                None => s,
            };
            AuditParameter::from_name(normalized).is_ok()
        },
    }
}

/// Reads the setting in a cell of the audit file.
pub fn to_audit_parameter(locale: &str, s: &str) -> (r: Result<Option<AuditParameter>, String>)
    requires
        parameter_text_readable(locale@, s@),
    ensures
        match parameter_from_text(locale@, s@) {
            Ok(p) => r == Ok::<Option<AuditParameter>, String>(p),
            Err(e) => r is Err && r->Err_0@ == e,
        },
{
    let t = trim_str(s);
    if t.len() == 0 {
        return Ok(None);
    }
    match crate::i18n::audit_parameters(locale) {
        None => Err(lit("Unsupported locale")),
        Some(table) => {
            let normalized = match key_for_exec(&table, s) {
                Some(k) => k,
                None => s,
            };
            match AuditParameter::from_name(normalized) {
                Ok(p) => Ok(Some(p)),
                Err(_) => Ok(None),
            }
        },
    }
}

/// The cell written for a setting.
pub fn from_audit_parameter(locale: &str, param: Option<AuditParameter>) -> (r: Result<String, String>)
    ensures
        rview(r) == parameter_to_text(locale@, param),
{
    match param {
        None => {
            let r = lit("");
            proof {
                reveal_strlit("");
            }
            assert(r@ =~= Seq::<char>::empty());
            Ok(r)
        },
        Some(x) => match crate::i18n::audit_parameters(locale) {
            None => Err(lit("Unsupported locale")),
            Some(table) => match lookup_exec(&table, x.name()) {
                Some(l) => Ok(lit(l)),
                None => {
                    let r = lit("");
                    proof {
                        reveal_strlit("");
                    }
                    assert(r@ =~= Seq::<char>::empty());
                    Ok(r)
                },
            },
        },
    }
}

/// The columns of the audit file, by their standard names.
pub open spec fn audit_columns() -> Seq<Seq<char>> {
    seq![
        "computer_name"@,
        "target"@,
        "sub_category"@,
        "guid"@,
        "inclusion_parameter"@,
        "exclusion_parameter"@,
        "parameter_value"@,
    ]
}

/// The standard name of each header of an audit file in a locale: the
/// key of its localized text, else the header itself.
pub open spec fn standard_headers_spec(locale: Seq<char>, headers: Seq<Seq<char>>) -> Result<Seq<Seq<char>>, Seq<char>> {
    match audit_header_table(locale) {
        None => Err("Unsupported locale"@),
        Some(t) => Ok(
            headers.map_values(
                |h: Seq<char>|
                    match key_for(t, h) {
                        Some(k) => k,
                        None => h,
                    },
            ),
        ),
    }
}

/// The header line written to an audit file in a locale: each column's
/// localized name, else its standard name, separated by commas.
pub open spec fn header_line_spec(locale: Seq<char>) -> Result<Seq<char>, Seq<char>> {
    match audit_header_table(locale) {
        None => Err("Unsupported locale"@),
        Some(t) => Ok(
            join(
                audit_columns().map_values(
                    |c: Seq<char>|
                        match lookup(t, c) {
                            Some(l) => l,
                            None => c,
                        },
                ),
                ","@,
            ),
        ),
    }
}

/// The standard names of the headers of an audit file.
pub fn standard_headers(locale: &str, headers: &Vec<String>) -> (r: Result<Vec<String>, String>)
    ensures
        match standard_headers_spec(locale@, headers.deep_view()) {
            Ok(hs) => r is Ok && r->Ok_0.deep_view() == hs,
            Err(e) => r is Err && r->Err_0@ == e,
        },
{
    let table = match crate::i18n::audit_headers(locale) {
        Some(t) => t,
        None => return Err(lit("Unsupported locale")),
    };
    let ghost t = pairs_view(table@);
    let mut out: Vec<String> = Vec::new();
    let mut i: usize = 0;
    while i < headers.len()
        invariant
            i <= headers@.len(),
            t == pairs_view(table@),
            out@.len() == i,
            forall|j: int| 0 <= j < i ==> (#[trigger] out@[j])@ == match key_for(t, headers@[j]@) {
                Some(k) => k,
                None => headers@[j]@,
            },
        decreases headers@.len() - i,
    {
        let h = match key_for_exec(&table, headers[i].as_str()) {
            Some(k) => lit(k),
            None => copy_string(&headers[i]),
        };
        out.push(h);
        i = i + 1;
    }
    let ghost std = standard_headers_spec(locale@, headers.deep_view())->Ok_0;
    assert(out.deep_view() =~= std);
    Ok(out)
}

/// The header line written to an audit file.
pub fn header_line(locale: &str) -> (r: Result<String, String>)
    ensures
        rview(r) == header_line_spec(locale@),
{
    let table = match crate::i18n::audit_headers(locale) {
        Some(t) => t,
        None => return Err(lit("Unsupported locale")),
    };
    let ghost t = pairs_view(table@);
    let columns: Vec<&str> = vec![
        "computer_name",
        "target",
        "sub_category",
        "guid",
        "inclusion_parameter",
        "exclusion_parameter",
        "parameter_value",
    ];
    assert(columns@.map_values(|c: &str| c@) =~= audit_columns());
    let mut names: Vec<String> = Vec::new();
    let mut i: usize = 0;
    while i < columns.len()
        invariant
            i <= columns@.len(),
            columns@.map_values(|c: &str| c@) == audit_columns(),
            t == pairs_view(table@),
            names@.len() == i,
            forall|j: int| 0 <= j < i ==> (#[trigger] names@[j])@ == match lookup(t, audit_columns()[j]) {
                Some(l) => l,
                None => audit_columns()[j],
            },
        decreases columns@.len() - i,
    {
        assert(audit_columns()[i as int] == columns@[i as int]@);
        let n = match lookup_exec(&table, columns[i]) {
            Some(l) => lit(l),
            None => lit(columns[i]),
        };
        names.push(n);
        i = i + 1;
    }
    let ghost cols = audit_columns().map_values(
        |c: Seq<char>|
            match lookup(t, c) {
                Some(l) => l,
                None => c,
            },
    );
    assert(names.deep_view() =~= cols);
    Ok(crate::text::join_strs(names.as_slice(), ","))
}

// ------------------------------------------------------------------
// What is set is read back
// ------------------------------------------------------------------

proof fn lemma_first_match(v: Seq<AuditStrategyView>, guid: Seq<char>, n: int)
    requires
        0 <= n < v.len(),
        same_guid(v[n].guid, guid),
    ensures
        exists|k: int|
            0 <= k < v.len() && same_guid(#[trigger] v[k].guid, guid) && forall|j: int|
                0 <= j < k ==> !same_guid(#[trigger] v[j].guid, guid),
    decreases n,
{
    if exists|j: int| 0 <= j < n && same_guid(#[trigger] v[j].guid, guid) {
        let j = choose|j: int| 0 <= j < n && same_guid(#[trigger] v[j].guid, guid);
        lemma_first_match(v, guid, j);
    } else {
        assert(forall|j: int| 0 <= j < n ==> !same_guid(#[trigger] v[j].guid, guid));
    }
}

/// The strategy found for a GUID is the first one of that GUID; none is
/// found only where no strategy has it.
pub proof fn lemma_find_strategy_first(v: Seq<AuditStrategyView>, guid: Seq<char>)
    ensures
        find_strategy(v, guid) matches Some(i) ==> 0 <= i < v.len() && same_guid(v[i].guid, guid)
            && forall|j: int| 0 <= j < i ==> !same_guid(#[trigger] v[j].guid, guid),
        find_strategy(v, guid) is None ==> forall|j: int| 0 <= j < v.len() ==> !same_guid(#[trigger] v[j].guid, guid),
{
    if exists|i: int| 0 <= i < v.len() && same_guid(#[trigger] v[i].guid, guid) {
        let w = choose|i: int| 0 <= i < v.len() && same_guid(#[trigger] v[i].guid, guid);
        lemma_first_match(v, guid, w);
    }
}

/// After a subcategory's setting is set, reading it gives that setting,
/// under the GUID of its strategy; the other strategies are unchanged.
pub proof fn lemma_execute_then_current(v: Seq<AuditStrategyView>, a: AdvancedAuditingView)
    requires
        find_strategy(v, a.guid) is Some,
    ensures
        ({
            let i = find_strategy(v, a.guid)->0;
            let after = v.update(i, with_parameter(v[i], a.value));
            &&& auditing_current(after, a) == auditing_to_raw(
                AdvancedAuditingView { guid: v[i].guid, value: a.value },
                false,
            )
            &&& forall|j: int| 0 <= j < v.len() && j != i ==> after[j] == v[j]
        }),
{
    let i = find_strategy(v, a.guid)->0;
    lemma_find_strategy_first(v, a.guid);
    let after = v.update(i, with_parameter(v[i], a.value));
    assert forall|j: int| 0 <= j < i implies !same_guid(#[trigger] after[j].guid, a.guid) by {
        assert(after[j] == v[j]);
    }
    lemma_find_strategy(after, a.guid, i);
}

/// A setting read from its raw method is the setting written, with its
/// GUID in lower case.
pub proof fn lemma_auditing_raw_roundtrip(a: AdvancedAuditingView)
    ensures
        auditing_from_raw(auditing_to_raw(a, false)) == Ok::<AdvancedAuditingView, Seq<char>>(
            AdvancedAuditingView { guid: str_lowercase(a.guid), value: a.value },
        ),
{
    lemma_audit_parameter_name_roundtrip(a.value);
}

proof fn lemma_fr_parameter_texts()
    ensures
        "Désactivé"@.len() == 9,
        "Pas d’audit"@.len() == 11,
        "Réussite"@.len() == 8,
        "Échec"@.len() == 5,
        "Succès et échec"@.len() == 15,
        !crate::text::is_ws("Désactivé"@[0]),
        !crate::text::is_ws("Pas d’audit"@[0]),
        !crate::text::is_ws("Réussite"@[0]),
        !crate::text::is_ws("Échec"@[0]),
        !crate::text::is_ws("Succès et échec"@[0]),
{
    reveal_strlit("Désactivé");
    reveal_strlit("Pas d’audit");
    reveal_strlit("Réussite");
    reveal_strlit("Échec");
    reveal_strlit("Succès et échec");
}

/// In French, the cell written for a setting reads back as that setting.
pub proof fn lemma_parameter_text_roundtrip(p: Option<AuditParameter>)
    ensures
        parameter_to_text("fr-FR"@, p) is Ok,
        parameter_text_readable("fr-FR"@, parameter_to_text("fr-FR"@, p)->Ok_0),
        parameter_from_text("fr-FR"@, parameter_to_text("fr-FR"@, p)->Ok_0) == Ok::<
            Option<AuditParameter>,
            Seq<char>,
        >(p),
{
    match p {
        None => {
            assert(trim(Seq::<char>::empty()) =~= Seq::<char>::empty());
        },
        Some(x) => {
            lemma_audit_parameter_names();
            lemma_audit_parameter_name_roundtrip(x);
            lemma_fr_parameter_texts();
            let t = crate::i18n::fr_audit_parameters();
            let t1 = t.drop_first();
            let t2 = t1.drop_first();
            let t3 = t2.drop_first();
            let t4 = t3.drop_first();
            assert(t1 =~= seq![t[1], t[2], t[3], t[4]]);
            assert(t2 =~= seq![t[2], t[3], t[4]]);
            assert(t3 =~= seq![t[3], t[4]]);
            assert(t4 =~= seq![t[4]]);
            assert(t4.drop_first() =~= Seq::<(Seq<char>, Seq<char>)>::empty());
            assert("disabled"@.len() != "no_auditing"@.len());
            let n = audit_parameter_name(x);
            reveal_with_fuel(lookup, 6);
            reveal_with_fuel(key_for, 6);
            let l = lookup(t, n)->0;
            assert(lookup(t, n) is Some);
            assert(key_for(t, l) == Some(n));
            crate::text::lemma_trim_first(l);
        },
    }
}

/// Whether a setting audits successes.
pub open spec fn audits_success(p: AuditParameter) -> bool {
    p == AuditParameter::Success || p == AuditParameter::SuccessAndFailure
}

/// Whether a setting audits failures.
pub open spec fn audits_failure(p: AuditParameter) -> bool {
    p == AuditParameter::Failure || p == AuditParameter::SuccessAndFailure
}

/// The number of a setting is its audit flags, success counting 1 and
/// failure 2, except for a disabled setting, which is -1; the value
/// recorded in the audit file is the flags, 0 for a disabled setting.
pub proof fn lemma_audit_number_flags(p: AuditParameter)
    ensures
        parameter_value_of(p) == (if audits_success(p) { 1int } else { 0int }) + (if audits_failure(p) {
            2int
        } else {
            0int
        }),
        p != AuditParameter::Disabled ==> audit_number(p) == parameter_value_of(p),
        p == AuditParameter::Disabled ==> audit_number(p) == -1,
{
}

/// Setting a subcategory records the setting and its flags (1 for success,
/// 2 for failure, both for both, 0 for none or disabled) in the first
/// strategy of its GUID, and leaves the others.
pub proof fn lemma_execute_records_flags(v: Seq<AuditStrategyView>, a: AdvancedAuditingView)
    requires
        find_strategy(v, a.guid) is Some,
    ensures
        ({
            let i = find_strategy(v, a.guid)->0;
            let s = with_parameter(v[i], a.value);
            &&& s.inclusion_parameter == Some(a.value)
            &&& s.parameter_value == Some(
                ((if audits_success(a.value) { 1int } else { 0int }) + (if audits_failure(a.value) {
                    2int
                } else {
                    0int
                })) as i8,
            )
            &&& s.guid == v[i].guid
            &&& same_guid(v[i].guid, a.guid)
        }),
{
    lemma_find_strategy_first(v, a.guid);
    lemma_audit_number_flags(a.value);
}

} // verus!
