//! Windows optional features: whether one is enabled, read from and set
//! through PowerShell.
use vstd::prelude::*;

use crate::lgpo::copy_string;
use crate::raw::{lit, str_lowercase, to_lowercase, RawMethod, RawView};
use crate::text::{cat2, cat3, chars_of, concat, rview, str_eq, string_of, trim, trim_str, unknown_variant, unknown_variant_message};
use crate::windows_capability::{cased, to_case, TextCase};

verus! {

/// Whether a Windows optional feature should be enabled.
#[derive(Debug, Clone, Copy, PartialEq, Eq, Structural)]
pub enum Action {
    Enable,
    Disable,
}

/// How each `Action` is written in text.
pub open spec fn action_name(x: Action) -> Seq<char> {
    match x {
        Action::Enable => "enable"@,
        Action::Disable => "disable"@,
    }
}

pub open spec fn action_names() -> Seq<Seq<char>> {
    seq!["enable"@, "disable"@]
}

/// Reads the `Action` written as `s`; any other text is an unknown variant.
pub open spec fn action_from_name(s: Seq<char>) -> Result<Action, Seq<char>> {
    if s == "enable"@ {
        Ok(Action::Enable)
    } else if s == "disable"@ {
        Ok(Action::Disable)
    } else {
        Err(unknown_variant(s, action_names()))
    }
}

impl Action {
    pub fn name(&self) -> (r: &'static str)
        ensures
            r@ == action_name(*self),
    {
        match self {
            Action::Enable => "enable",
            Action::Disable => "disable",
        }
    }

    /// Reads the `Action` written as `s`.
    pub fn from_name(s: &str) -> (r: Result<Action, String>)
        ensures
            match action_from_name(s@) {
                Ok(x) => r == Ok::<Action, String>(x),
                Err(e) => r is Err && r->Err_0@ == e,
            },
    {
        let names: Vec<&str> = vec!["enable", "disable"];
        if str_eq(s, "enable") {
            Ok(Action::Enable)
        } else if str_eq(s, "disable") {
            Ok(Action::Disable)
        } else {
            assert(names@.map_values(|n: &str| n@) =~= action_names());
            let v = chars_of(s);
            Err(unknown_variant_message(v.as_slice(), &names))
        }
    }
}

proof fn lemma_action_names()
    ensures
        "enable"@ == seq!['e', 'n', 'a', 'b', 'l', 'e'],
        "disable"@ == seq!['d', 'i', 's', 'a', 'b', 'l', 'e'],
{
    reveal_strlit("enable");
    reveal_strlit("disable");
    assert("enable"@ =~= seq!['e', 'n', 'a', 'b', 'l', 'e']);
    assert("disable"@ =~= seq!['d', 'i', 's', 'a', 'b', 'l', 'e']);
}

/// The text of each `Action` reads back as it.
pub proof fn lemma_action_name_roundtrip(x: Action)
    ensures
        action_from_name(action_name(x)) == Ok::<Action, Seq<char>>(x),
{
    lemma_action_names();
    assert("enable"@.len() != "disable"@.len());
}

/// A Windows optional feature and whether it should be enabled.
#[derive(Debug)]
pub struct WindowsOptionalFeature {
    pub name: String,
    pub action: Action,
}

pub struct WindowsOptionalFeatureView {
    pub name: Seq<char>,
    pub action: Action,
}

impl View for WindowsOptionalFeature {
    type V = WindowsOptionalFeatureView;

    open spec fn view(&self) -> WindowsOptionalFeatureView {
        WindowsOptionalFeatureView { name: self.name@, action: self.action }
    }
}

/// The state PowerShell printed for a feature: enabled where it reads
/// `enabled` in lower case, else disabled.
pub open spec fn feature_state(stdout: Seq<char>) -> Action {
    if str_lowercase(trim(stdout)) == "enabled"@ {
        Action::Enable
    } else {
        Action::Disable
    }
}

/// The state of a feature from the lower-case text PowerShell printed for
/// it: enabled where it reads `enabled`, else disabled.
pub fn feature_action(lowered: &str) -> (r: Action)
    ensures
        r == (if lowered@ == "enabled"@ {
            Action::Enable
        } else {
            Action::Disable
        }),
{
    if str_eq(lowered, "enabled") {
        Action::Enable
    } else {
        Action::Disable
    }
}

/// A feature as it is now, from what the
/// query of its state printed.
pub fn get_optional_feature_state(name: String, stdout: &str) -> (r: WindowsOptionalFeature)
    ensures
        r@ == (WindowsOptionalFeatureView { name: name@, action: feature_state(stdout@) }),
{
    let t = string_of(trim_str(stdout).as_slice());
    let lower = to_lowercase(t.as_str());
    WindowsOptionalFeature { name, action: feature_action(lower.as_str()) }
}

pub open spec fn feature_to_raw(f: WindowsOptionalFeatureView) -> RawView {
    RawView {
        method: "windows_optional_feature"@,
        target: f.name,
        option1: seq![],
        option2: seq![],
        scope: seq![],
        action: action_name(f.action),
    }
}

pub open spec fn feature_from_raw(r: RawView) -> Result<WindowsOptionalFeatureView, Seq<char>> {
    match action_from_name(r.action) {
        Ok(a) => Ok(WindowsOptionalFeatureView { name: r.target, action: a }),
        Err(e) => Err("Failed to deserialize action: "@ + e),
    }
}

/// The command that prints a feature's state.
pub open spec fn feature_query_spec(name: Seq<char>) -> Seq<char> {
    "(Get-WindowsOptionalFeature -Online -FeatureName '"@ + name + "').State"@
}

/// The command that enables or disables a feature: the action's name in
/// Pascal case, then the rest.
pub open spec fn feature_command_spec(f: WindowsOptionalFeatureView) -> Seq<char> {
    cased(action_name(f.action), TextCase::Pascal) + "-WindowsOptionalFeature -Online -FeatureName '"@ + f.name
        + "' -NoRestart"@
}

/// The command that prints a feature's state.
pub fn feature_query(name: &str) -> (r: String)
    ensures
        r@ == feature_query_spec(name@),
{
    cat3("(Get-WindowsOptionalFeature -Online -FeatureName '", name, "').State")
}

impl WindowsOptionalFeature {
    pub fn to_raw(&self, compare_mode: bool) -> (r: RawMethod)
        ensures
            r@ == feature_to_raw(self@),
    {
        let r = RawMethod {
            method: lit("windows_optional_feature"),
            target: copy_string(&self.name),
            option1: lit(""),
            option2: lit(""),
            scope: lit(""),
            action: lit(self.action.name()),
        };
        proof {
            reveal_strlit("");
        }
        assert(r@.option1 =~= Seq::<char>::empty());
        r
    }

    pub fn from_raw(raw: RawMethod) -> (r: Result<WindowsOptionalFeature, String>)
        ensures
            rview(r) == feature_from_raw(raw@),
    {
        match Action::from_name(raw.action.as_str()) {
            Ok(a) => Ok(WindowsOptionalFeature { name: raw.target, action: a }),
            Err(e) => Err(cat2("Failed to deserialize action: ", e.as_str())),
        }
    }

    /// The command that gives the feature this rule's state.
    pub fn set_command(&self) -> (r: String)
        ensures
            r@ == feature_command_spec(self@),
    {
        let prefix = to_case(self.action.name(), TextCase::Pascal);
        let a = cat3(prefix.as_str(), "-WindowsOptionalFeature -Online -FeatureName '", self.name.as_str());
        cat2(a.as_str(), "' -NoRestart")
    }
}

/// A feature read from its raw method is the feature written.
pub proof fn lemma_feature_raw_roundtrip(f: WindowsOptionalFeatureView)
    ensures
        feature_from_raw(feature_to_raw(f)) == Ok::<WindowsOptionalFeatureView, Seq<char>>(f),
{
    lemma_action_name_roundtrip(f.action);
}

} // verus!
