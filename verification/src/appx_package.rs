//! AppX packages: their state, what to run to reach the wanted one, and
//! the PowerShell commands that do it.
use vstd::prelude::*;

use crate::lgpo::copy_string;
use crate::raw::{lit, RawMethod, RawView};
use crate::text::{cat2, cat3, chars_of, concat, rview, str_eq, string_of, trim, trim_str, unknown_variant, unknown_variant_message};

verus! {

/// The state an AppX package should be in: installed, staged (provisioned for new users), or removed.
#[derive(Debug, Clone, Copy, PartialEq, Eq, Structural)]
pub enum Action {
    Install,
    Stage,
    Remove,
}

/// How each `Action` is written in text.
pub open spec fn action_name(x: Action) -> Seq<char> {
    match x {
        Action::Install => "install"@,
        Action::Stage => "stage"@,
        Action::Remove => "remove"@,
    }
}

pub open spec fn action_names() -> Seq<Seq<char>> {
    seq!["install"@, "stage"@, "remove"@]
}

/// Reads the `Action` written as `s`; any other text is an unknown variant.
pub open spec fn action_from_name(s: Seq<char>) -> Result<Action, Seq<char>> {
    if s == "install"@ {
        Ok(Action::Install)
    } else if s == "stage"@ {
        Ok(Action::Stage)
    } else if s == "remove"@ {
        Ok(Action::Remove)
    } else {
        Err(unknown_variant(s, action_names()))
    }
}

impl Action {
    pub fn name(&self) -> (r: &'static str)
        ensures
            r@ == action_name(*self),
    {
        match self {
            Action::Install => "install",
            Action::Stage => "stage",
            Action::Remove => "remove",
        }
    }

    /// Reads the `Action` written as `s`.
    pub fn from_name(s: &str) -> (r: Result<Action, String>)
        ensures
            match action_from_name(s@) {
                Ok(x) => r == Ok::<Action, String>(x),
                Err(e) => r is Err && r->Err_0@ == e,
            },
    {
        let names: Vec<&str> = vec!["install", "stage", "remove"];
        if str_eq(s, "install") {
            Ok(Action::Install)
        } else if str_eq(s, "stage") {
            Ok(Action::Stage)
        } else if str_eq(s, "remove") {
            Ok(Action::Remove)
        } else {
            assert(names@.map_values(|n: &str| n@) =~= action_names());
            let v = chars_of(s);
            Err(unknown_variant_message(v.as_slice(), &names))
        }
    }
}

proof fn lemma_action_names()
    ensures
        "install"@ == seq!['i', 'n', 's', 't', 'a', 'l', 'l'],
        "stage"@ == seq!['s', 't', 'a', 'g', 'e'],
        "remove"@ == seq!['r', 'e', 'm', 'o', 'v', 'e'],
{
    reveal_strlit("install");
    reveal_strlit("stage");
    reveal_strlit("remove");
    assert("install"@ =~= seq!['i', 'n', 's', 't', 'a', 'l', 'l']);
    assert("stage"@ =~= seq!['s', 't', 'a', 'g', 'e']);
    assert("remove"@ =~= seq!['r', 'e', 'm', 'o', 'v', 'e']);
}

/// The text of each `Action` reads back as it.
pub proof fn lemma_action_name_roundtrip(x: Action)
    ensures
        action_from_name(action_name(x)) == Ok::<Action, Seq<char>>(x),
{
    lemma_action_names();
    assert("install"@.len() != "stage"@.len());
    assert("install"@.len() != "remove"@.len());
    assert("stage"@.len() != "remove"@.len());
}

/// An AppX package, its wanted state, and where to install it from.
#[derive(Debug)]
pub struct AppxPackage {
    pub name: String,
    pub action: Action,
    pub package_source: Option<String>,
}

pub struct AppxPackageView {
    pub name: Seq<char>,
    pub action: Action,
    pub package_source: Option<Seq<char>>,
}

impl View for AppxPackage {
    type V = AppxPackageView;

    open spec fn view(&self) -> AppxPackageView {
        AppxPackageView {
            name: self.name@,
            action: self.action,
            package_source: match self.package_source {
                Some(s) => Some(s@),
                None => None,
            },
        }
    }
}

pub open spec fn appx_to_raw(p: AppxPackageView) -> RawView {
    RawView {
        method: "appx_package"@,
        target: p.name,
        option1: seq![],
        option2: seq![],
        scope: match p.package_source {
            Some(s) => s,
            None => seq![],
        },
        action: action_name(p.action),
    }
}

pub open spec fn appx_from_raw(r: RawView) -> Result<AppxPackageView, Seq<char>> {
    match action_from_name(r.action) {
        Ok(a) => Ok(
            AppxPackageView {
                name: r.target,
                action: a,
                package_source: if r.scope.len() == 0 {
                    None
                } else {
                    Some(r.scope)
                },
            },
        ),
        Err(e) => Err("Error deserializing action: "@ + e),
    }
}

/// One step of applying a package rule.
#[derive(Debug, Clone, Copy, PartialEq, Eq, Structural)]
pub enum AppxStep {
    RemoveInstalled,
    RemoveProvisioned,
    Install,
    Provision,
}

/// The steps that take a package from its current state to the wanted
/// one, in order.
pub open spec fn appx_steps(wanted: Action, current: Action) -> Seq<AppxStep> {
    match wanted {
        Action::Remove => if current == Action::Install {
            seq![AppxStep::RemoveInstalled]
        } else if current == Action::Stage {
            seq![AppxStep::RemoveProvisioned]
        } else {
            seq![]
        },
        Action::Install => if current != Action::Install {
            seq![AppxStep::Install]
        } else {
            seq![]
        },
        Action::Stage => (if current == Action::Install {
            seq![AppxStep::RemoveInstalled]
        } else {
            seq![]
        }) + (if current != Action::Stage {
            seq![AppxStep::Provision]
        } else {
            seq![]
        }),
    }
}

/// Where a package is looked for when it is installed or provisioned: its
/// own source first, where it has one, then the two Windows folders.
pub open spec fn package_paths_spec(p: AppxPackageView) -> Seq<Seq<char>> {
    let defaults = seq![
        "C:\\Windows\\Packages\\"@ + p.name + "\\"@,
        "C:\\Program Files\\WindowsApps\\"@ + p.name + "\\"@,
    ];
    match p.package_source {
        Some(s) => seq![s] + defaults,
        None => defaults,
    }
}

/// A package is staged where the query for its provisioned form printed
/// anything but whitespace.
pub open spec fn staged_spec(provisioned_stdout: Seq<char>) -> bool {
    trim(provisioned_stdout).len() > 0
}

/// The state of a package that is not staged, from its install state:
/// installed only where that is `Installed`.
pub open spec fn install_state_spec(regular_stdout: Seq<char>) -> Action {
    if trim(regular_stdout) == "Installed"@ {
        Action::Install
    } else {
        Action::Remove
    }
}

/// Whether a package is staged, from what the query of its provisioned
/// form printed.
pub fn is_staged(provisioned_stdout: &str) -> (r: bool)
    ensures
        r == staged_spec(provisioned_stdout@),
{
    trim_str(provisioned_stdout).len() > 0
}

/// The state of a package that is not staged, from what the query of its
/// install state printed.
pub fn install_state(regular_stdout: &str) -> (r: Action)
    ensures
        r == install_state_spec(regular_stdout@),
{
    let t = trim_str(regular_stdout);
    if crate::text::seq_eq(t.as_slice(), chars_of("Installed").as_slice()) {
        Action::Install
    } else {
        Action::Remove
    }
}

/// The package as it is now: staged where the first
/// query printed anything, else as the install state says.
pub fn get_appx_package(name: String, provisioned_stdout: &str, regular_stdout: &str) -> (r: AppxPackage)
    ensures
        r@ == (AppxPackageView {
            name: name@,
            action: if staged_spec(provisioned_stdout@) {
                Action::Stage
            } else {
                install_state_spec(regular_stdout@)
            },
            package_source: None,
        }),
{
    let action = if is_staged(provisioned_stdout) {
        Action::Stage
    } else {
        install_state(regular_stdout)
    };
    AppxPackage { name, action, package_source: None }
}

/// The command that removes an installed package.
pub fn remove_command(name: &str) -> (r: String)
    ensures
        r@ == "Get-AppxPackage -Name '"@ + name@ + "' | Remove-AppxPackage"@,
{
    cat3("Get-AppxPackage -Name '", name, "' | Remove-AppxPackage")
}

/// The command that removes a provisioned package.
pub fn remove_provisioned_command(name: &str) -> (r: String)
    ensures
        r@ == "Get-AppxProvisionedPackage -Online | Where-Object {$_.DisplayName -eq '"@ + name@
            + "'} | Remove-AppxProvisionedPackage -Online"@,
{
    cat3(
        "Get-AppxProvisionedPackage -Online | Where-Object {$_.DisplayName -eq '",
        name,
        "'} | Remove-AppxProvisionedPackage -Online",
    )
}

/// The command that installs a package from a path.
pub fn install_command(path: &str) -> (r: String)
    ensures
        r@ == "Add-AppxPackage -Path '"@ + path@ + "'"@,
{
    cat3("Add-AppxPackage -Path '", path, "'")
}

/// The command that provisions a package from a path.
pub fn provision_command(path: &str) -> (r: String)
    ensures
        r@ == "Add-AppxProvisionedPackage -Online -PackagePath '"@ + path@ + "' -SkipLicense"@,
{
    cat3("Add-AppxProvisionedPackage -Online -PackagePath '", path, "' -SkipLicense")
}

/// The command that prints the provisioned form of a package.
pub fn provisioned_query(name: &str) -> (r: String)
    ensures
        r@ == "Get-AppxProvisionedPackage -Online | Where-Object { $_.DisplayName -eq '"@ + name@ + "' }"@,
{
    cat3("Get-AppxProvisionedPackage -Online | Where-Object { $_.DisplayName -eq '", name, "' }")
}

/// The command that prints the install state of a package.
pub fn install_state_query(name: &str) -> (r: String)
    ensures
        r@ == "Get-AppxPackage -Name '"@ + name@
            + "' -AllUsers | Select-Object -ExpandProperty PackageUserInformation | Select-Object -ExpandProperty InstallState"@,
{
    cat3(
        "Get-AppxPackage -Name '",
        name,
        "' -AllUsers | Select-Object -ExpandProperty PackageUserInformation | Select-Object -ExpandProperty InstallState",
    )
}

impl AppxPackage {
    pub fn to_raw(&self, compare_mode: bool) -> (r: RawMethod)
        ensures
            r@ == appx_to_raw(self@),
    {
        let scope = match &self.package_source {
            Some(s) => copy_string(s),
            None => lit(""),
        };
        let r = RawMethod {
            method: lit("appx_package"),
            target: copy_string(&self.name),
            option1: lit(""),
            option2: lit(""),
            scope,
            action: lit(self.action.name()),
        };
        proof {
            reveal_strlit("");
        }
        assert(r@.option1 =~= Seq::<char>::empty());
        assert(r@.scope =~= appx_to_raw(self@).scope);
        r
    }

    pub fn from_raw(raw: RawMethod) -> (r: Result<AppxPackage, String>)
        ensures
            rview(r) == appx_from_raw(raw@),
    {
        match Action::from_name(raw.action.as_str()) {
            Ok(a) => {
                let package_source = if chars_of(raw.scope.as_str()).len() == 0 {
                    None
                } else {
                    Some(raw.scope)
                };
                let p = AppxPackage { name: raw.target, action: a, package_source };
                Ok(p)
            },
            Err(e) => Err(cat2("Error deserializing action: ", e.as_str())),
        }
    }

    /// The steps that take the package from its current state to this
    /// rule's.
    pub fn steps(&self, current: Action) -> (r: Vec<AppxStep>)
        ensures
            r@ == appx_steps(self.action, current),
    {
        let mut r: Vec<AppxStep> = Vec::new();
        match self.action {
            Action::Remove => {
                if current == Action::Install {
                    r.push(AppxStep::RemoveInstalled);
                }
                if current == Action::Stage {
                    r.push(AppxStep::RemoveProvisioned);
                }
            },
            Action::Install => {
                if current != Action::Install {
                    r.push(AppxStep::Install);
                }
            },
            Action::Stage => {
                if current == Action::Install {
                    r.push(AppxStep::RemoveInstalled);
                }
                if current != Action::Stage {
                    r.push(AppxStep::Provision);
                }
            },
        }
        assert(r@ =~= appx_steps(self.action, current));
        r
    }

    /// Where the package is looked for, in order.
    pub fn package_paths(&self) -> (r: Vec<String>)
        ensures
            r.deep_view() == package_paths_spec(self@),
    {
        let mut r: Vec<String> = Vec::new();
        if let Some(s) = &self.package_source {
            r.push(copy_string(s));
        }
        r.push(cat3("C:\\Windows\\Packages\\", self.name.as_str(), "\\"));
        r.push(cat3("C:\\Program Files\\WindowsApps\\", self.name.as_str(), "\\"));
        assert(r.deep_view() =~= package_paths_spec(self@));
        r
    }
}

/// Applying the steps for a package's state leaves it in the wanted
/// state, each step moving it as its name says.
pub open spec fn apply_step(state: Action, step: AppxStep) -> Action {
    match step {
        AppxStep::RemoveInstalled => Action::Remove,
        AppxStep::RemoveProvisioned => Action::Remove,
        AppxStep::Install => Action::Install,
        AppxStep::Provision => Action::Stage,
    }
}

pub open spec fn apply_steps(state: Action, steps: Seq<AppxStep>) -> Action
    decreases steps.len(),
{
    if steps.len() == 0 {
        state
    } else {
        apply_steps(apply_step(state, steps[0]), steps.drop_first())
    }
}

/// The steps for a wanted state reach it from every current state, and
/// there are none where the package is already in it.
pub proof fn lemma_steps_reach(wanted: Action, current: Action)
    ensures
        apply_steps(current, appx_steps(wanted, current)) == wanted,
        wanted == current ==> appx_steps(wanted, current).len() == 0,
{
    let s = appx_steps(wanted, current);
    reveal_with_fuel(apply_steps, 3);
    if s.len() == 2 {
        assert(s.drop_first() =~= seq![AppxStep::Provision]);
        assert(s.drop_first().drop_first() =~= Seq::<AppxStep>::empty());
    } else if s.len() == 1 {
        assert(s.drop_first() =~= Seq::<AppxStep>::empty());
    }
}

/// A package read from its raw method is the package written.
pub proof fn lemma_appx_raw_roundtrip(p: AppxPackageView)
    requires
        p.package_source matches Some(s) ==> s.len() > 0,
    ensures
        appx_from_raw(appx_to_raw(p)) == Ok::<AppxPackageView, Seq<char>>(p),
{
    lemma_action_name_roundtrip(p.action);
}

} // verus!
