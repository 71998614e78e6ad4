//! Windows capabilities: whether one is present, read from and set
//! through PowerShell.
use vstd::prelude::*;

use convert_case::Casing;

use crate::lgpo::copy_string;
use crate::raw::{lit, RawMethod, RawView};
use crate::text::{cat2, cat3, chars_of, concat, rview, str_eq, string_of, trim, trim_str, unknown_variant, unknown_variant_message};

verus! {

/// Whether a Windows capability should be present.
#[derive(Debug, Clone, Copy, PartialEq, Eq, Structural)]
pub enum Action {
    Present,
    NotPresent,
}

/// How each `Action` is written in text.
pub open spec fn action_name(x: Action) -> Seq<char> {
    match x {
        Action::Present => "present"@,
        Action::NotPresent => "not_present"@,
    }
}

pub open spec fn action_names() -> Seq<Seq<char>> {
    seq!["present"@, "not_present"@]
}

/// Reads the `Action` written as `s`; any other text is an unknown variant.
pub open spec fn action_from_name(s: Seq<char>) -> Result<Action, Seq<char>> {
    if s == "present"@ {
        Ok(Action::Present)
    } else if s == "not_present"@ {
        Ok(Action::NotPresent)
    } else {
        Err(unknown_variant(s, action_names()))
    }
}

impl Action {
    pub fn name(&self) -> (r: &'static str)
        ensures
            r@ == action_name(*self),
    {
        match self {
            Action::Present => "present",
            Action::NotPresent => "not_present",
        }
    }

    /// Reads the `Action` written as `s`.
    pub fn from_name(s: &str) -> (r: Result<Action, String>)
        ensures
            match action_from_name(s@) {
                Ok(x) => r == Ok::<Action, String>(x),
                Err(e) => r is Err && r->Err_0@ == e,
            },
    {
        let names: Vec<&str> = vec!["present", "not_present"];
        if str_eq(s, "present") {
            Ok(Action::Present)
        } else if str_eq(s, "not_present") {
            Ok(Action::NotPresent)
        } else {
            assert(names@.map_values(|n: &str| n@) =~= action_names());
            let v = chars_of(s);
            Err(unknown_variant_message(v.as_slice(), &names))
        }
    }
}

proof fn lemma_action_names()
    ensures
        "present"@ == seq!['p', 'r', 'e', 's', 'e', 'n', 't'],
        "not_present"@ == seq!['n', 'o', 't', '_', 'p', 'r', 'e', 's', 'e', 'n', 't'],
{
    reveal_strlit("present");
    reveal_strlit("not_present");
    assert("present"@ =~= seq!['p', 'r', 'e', 's', 'e', 'n', 't']);
    assert("not_present"@ =~= seq!['n', 'o', 't', '_', 'p', 'r', 'e', 's', 'e', 'n', 't']);
}

/// The text of each `Action` reads back as it.
pub proof fn lemma_action_name_roundtrip(x: Action)
    ensures
        action_from_name(action_name(x)) == Ok::<Action, Seq<char>>(x),
{
    lemma_action_names();
    assert("present"@.len() != "not_present"@.len());
}

/// A Windows capability and whether it should be present.
#[derive(Debug)]
pub struct WindowsCapability {
    pub name: String,
    pub action: Action,
}

pub struct WindowsCapabilityView {
    pub name: Seq<char>,
    pub action: Action,
}

impl View for WindowsCapability {
    type V = WindowsCapabilityView;

    open spec fn view(&self) -> WindowsCapabilityView {
        WindowsCapabilityView { name: self.name@, action: self.action }
    }
}

/// The word cases that text is converted to.
#[derive(Debug, Clone, Copy, PartialEq, Eq, Structural)]
pub enum TextCase {
    Snake,
    Pascal,
}

/// What `convert_case` makes of a text in a case (its word boundaries and
/// Unicode case mapping are its own).
pub uninterp spec fn cased(s: Seq<char>, case: TextCase) -> Seq<char>;

/// Converts a text to a case with `convert_case::Casing::to_case`; the
/// result is named, not described.
#[verifier::external_body]
pub(crate) fn to_case(s: &str, case: TextCase) -> (r: String)
    ensures
        r@ == cased(s@, case),
{
    s.to_case(
        match case {
            TextCase::Snake => convert_case::Case::Snake,
            TextCase::Pascal => convert_case::Case::Pascal,
        },
    )
}

/// The state PowerShell printed for a capability, converted to snake case
/// and read as an action.
pub open spec fn capability_state(stdout: Seq<char>) -> Result<Action, Seq<char>> {
    action_from_name(cased(trim(stdout), TextCase::Snake))
}

/// A capability as it is now, from what the
/// query of its state printed.
pub fn get_capability_state(name: String, stdout: &str) -> (r: Result<WindowsCapability, String>)
    ensures
        match capability_state(stdout@) {
            Ok(a) => r is Ok && r->Ok_0@ == (WindowsCapabilityView { name: name@, action: a }),
            Err(e) => r is Err && r->Err_0@ == e,
        },
{
    let t = string_of(trim_str(stdout).as_slice());
    let snake = to_case(t.as_str(), TextCase::Snake);
    match Action::from_name(snake.as_str()) {
        Ok(a) => Ok(WindowsCapability { name, action: a }),
        Err(e) => Err(e),
    }
}

pub open spec fn capability_to_raw(c: WindowsCapabilityView) -> RawView {
    RawView {
        method: "windows_capability"@,
        target: c.name,
        option1: seq![],
        option2: seq![],
        scope: seq![],
        action: action_name(c.action),
    }
}

pub open spec fn capability_from_raw(r: RawView) -> Result<WindowsCapabilityView, Seq<char>> {
    match action_from_name(r.action) {
        Ok(a) => Ok(WindowsCapabilityView { name: r.target, action: a }),
        Err(e) => Err("Failed to deserialize action: "@ + e),
    }
}

/// The command that prints a capability's state.
pub open spec fn state_query_spec(name: Seq<char>) -> Seq<char> {
    "(Get-WindowsCapability -LimitAccess -Online -Name '"@ + name + "').State"@
}

/// The command that adds (with `-LimitAccess`) or removes a capability.
pub open spec fn set_command_spec(c: WindowsCapabilityView) -> Seq<char> {
    match c.action {
        Action::Present => "Add-WindowsCapability -Online -Name '"@ + c.name + "' -LimitAccess"@,
        Action::NotPresent => "Remove-WindowsCapability -Online -Name '"@ + c.name + "' "@,
    }
}

/// Setting a capability failed where PowerShell wrote to its error output.
pub open spec fn set_outcome_spec(stderr_empty: bool) -> Result<(), Seq<char>> {
    if stderr_empty {
        Ok(())
    } else {
        Err("Failed to set capability state."@)
    }
}

/// The command that prints a capability's state.
pub fn state_query(name: &str) -> (r: String)
    ensures
        r@ == state_query_spec(name@),
{
    cat3("(Get-WindowsCapability -LimitAccess -Online -Name '", name, "').State")
}

/// The outcome of setting a capability, from whether PowerShell's error
/// output was empty.
pub fn set_outcome(stderr_empty: bool) -> (r: Result<(), String>)
    ensures
        match set_outcome_spec(stderr_empty) {
            Ok(_) => r is Ok,
            Err(e) => r is Err && r->Err_0@ == e,
        },
{
    if stderr_empty {
        Ok(())
    } else {
        Err(lit("Failed to set capability state."))
    }
}

impl WindowsCapability {
    pub fn to_raw(&self, compare_mode: bool) -> (r: RawMethod)
        ensures
            r@ == capability_to_raw(self@),
    {
        let r = RawMethod {
            method: lit("windows_capability"),
            target: copy_string(&self.name),
            option1: lit(""),
            option2: lit(""),
            scope: lit(""),
            action: lit(self.action.name()),
        };
        proof {
            reveal_strlit("");
        }
        assert(r@.option1 =~= Seq::<char>::empty());
        r
    }

    pub fn from_raw(raw: RawMethod) -> (r: Result<WindowsCapability, String>)
        ensures
            rview(r) == capability_from_raw(raw@),
    {
        match Action::from_name(raw.action.as_str()) {
            Ok(a) => Ok(WindowsCapability { name: raw.target, action: a }),
            Err(e) => Err(cat2("Failed to deserialize action: ", e.as_str())),
        }
    }

    /// The command that gives the capability this rule's state.
    pub fn set_command(&self) -> (r: String)
        ensures
            r@ == set_command_spec(self@),
    {
        match self.action {
            Action::Present => cat3("Add-WindowsCapability -Online -Name '", self.name.as_str(), "' -LimitAccess"),
            Action::NotPresent => cat3("Remove-WindowsCapability -Online -Name '", self.name.as_str(), "' "),
        }
    }
}

/// A capability read from its raw method is the capability written.
pub proof fn lemma_capability_raw_roundtrip(c: WindowsCapabilityView)
    ensures
        capability_from_raw(capability_to_raw(c)) == Ok::<WindowsCapabilityView, Seq<char>>(c),
{
    lemma_action_name_roundtrip(c.action);
}

/// The command that sets a capability adds it where it should be present
/// and removes it where it should not, naming it in quotes after `-Name`.
pub proof fn lemma_set_command_kind(c: WindowsCapabilityView)
    ensures
        c.action == Action::Present ==> crate::text::starts_with(set_command_spec(c), "Add-"@),
        c.action == Action::NotPresent ==> crate::text::starts_with(set_command_spec(c), "Remove-"@),
        crate::text::contains(set_command_spec(c), "-Name '"@ + c.name + "'"@),
{
    reveal_strlit("Add-");
    reveal_strlit("Remove-");
    reveal_strlit("-Name '");
    reveal_strlit("'");
    reveal_strlit("Add-WindowsCapability -Online -Name '");
    reveal_strlit("Remove-WindowsCapability -Online -Name '");
    reveal_strlit("' -LimitAccess");
    reveal_strlit("' ");
    let cmd = set_command_spec(c);
    let t = "-Name '"@ + c.name + "'"@;
    let head: Seq<char> = match c.action {
        Action::Present => "Add-WindowsCapability -Online -Name '"@,
        Action::NotPresent => "Remove-WindowsCapability -Online -Name '"@,
    };
    let tail: Seq<char> = match c.action {
        Action::Present => "' -LimitAccess"@,
        Action::NotPresent => "' "@,
    };
    assert(cmd == head + c.name + tail);
    let i = head.len() - 7;
    assert(head.subrange(i, head.len() as int) =~= "-Name '"@);
    assert(tail[0] == '\'');
    assert(cmd.skip(i).take(t.len() as int) =~= t);
    crate::text::lemma_find_some(cmd, t);
    if c.action == Action::Present {
        assert(cmd.take(4) =~= head.take(4));
        assert(head.take(4) =~= "Add-"@);
    } else {
        assert(cmd.take(7) =~= head.take(7));
        assert(head.take(7) =~= "Remove-"@);
    }
}

} // verus!
