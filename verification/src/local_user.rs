//! Local user accounts: their state, how an account is identified (by
//! name, SID or RID), and what to change to reach the wanted state.
use vstd::prelude::*;

use crate::lgpo::copy_string;
use crate::num::{decimal, fmt_decimal, int_error_message, int_error_text, parse_uint, parse_uint_chars};
use crate::raw::{lit, RawMethod, RawView};
use crate::text::{
    ascii_upper, cat2, cat3, chars_of, concat, join, rview, split, split_str, str_eq, string_of, strip_prefix,
    trim, unknown_variant, unknown_variant_message,
};

verus! {

/// The state a local account should be in.
#[derive(Debug, Clone, Copy, PartialEq, Eq, Structural)]
pub enum Action {
    Enabled,
    Disabled,
    NotExist,
}

/// How each `Action` is written in text.
pub open spec fn action_name(x: Action) -> Seq<char> {
    match x {
        Action::Enabled => "enabled"@,
        Action::Disabled => "disabled"@,
        Action::NotExist => "not_exist"@,
    }
}

pub open spec fn action_names() -> Seq<Seq<char>> {
    seq!["enabled"@, "disabled"@, "not_exist"@]
}

/// Reads the `Action` written as `s`; any other text is an unknown variant.
pub open spec fn action_from_name(s: Seq<char>) -> Result<Action, Seq<char>> {
    if s == "enabled"@ {
        Ok(Action::Enabled)
    } else if s == "disabled"@ {
        Ok(Action::Disabled)
    } else if s == "not_exist"@ {
        Ok(Action::NotExist)
    } else {
        Err(unknown_variant(s, action_names()))
    }
}

impl Action {
    pub fn name(&self) -> (r: &'static str)
        ensures
            r@ == action_name(*self),
    {
        match self {
            Action::Enabled => "enabled",
            Action::Disabled => "disabled",
            Action::NotExist => "not_exist",
        }
    }

    /// Reads the `Action` written as `s`.
    pub fn from_name(s: &str) -> (r: Result<Action, String>)
        ensures
            match action_from_name(s@) {
                Ok(x) => r == Ok::<Action, String>(x),
                Err(e) => r is Err && r->Err_0@ == e,
            },
    {
        let names: Vec<&str> = vec!["enabled", "disabled", "not_exist"];
        if str_eq(s, "enabled") {
            Ok(Action::Enabled)
        } else if str_eq(s, "disabled") {
            Ok(Action::Disabled)
        } else if str_eq(s, "not_exist") {
            Ok(Action::NotExist)
        } else {
            assert(names@.map_values(|n: &str| n@) =~= action_names());
            let v = chars_of(s);
            Err(unknown_variant_message(v.as_slice(), &names))
        }
    }
}

proof fn lemma_action_names()
    ensures
        "enabled"@ == seq!['e', 'n', 'a', 'b', 'l', 'e', 'd'],
        "disabled"@ == seq!['d', 'i', 's', 'a', 'b', 'l', 'e', 'd'],
        "not_exist"@ == seq!['n', 'o', 't', '_', 'e', 'x', 'i', 's', 't'],
{
    reveal_strlit("enabled");
    reveal_strlit("disabled");
    reveal_strlit("not_exist");
    assert("enabled"@ =~= seq!['e', 'n', 'a', 'b', 'l', 'e', 'd']);
    assert("disabled"@ =~= seq!['d', 'i', 's', 'a', 'b', 'l', 'e', 'd']);
    assert("not_exist"@ =~= seq!['n', 'o', 't', '_', 'e', 'x', 'i', 's', 't']);
}

/// The text of each `Action` reads back as it.
pub proof fn lemma_action_name_roundtrip(x: Action)
    ensures
        action_from_name(action_name(x)) == Ok::<Action, Seq<char>>(x),
{
    lemma_action_names();
    assert("enabled"@.len() != "disabled"@.len());
    assert("enabled"@.len() != "not_exist"@.len());
    assert("disabled"@.len() != "not_exist"@.len());
}

/// How an account is identified: by name, by SID, or by RID (its number
/// under the computer's SID).
#[derive(Debug, Clone, Copy, PartialEq, Eq, Structural)]
pub enum IdType {
    Username,
    SID,
    RID,
}

/// A local account, the SIDs of the groups it should belong to, and the
/// state it should be in.
#[derive(Debug)]
pub struct LocalAccount {
    pub id: String,
    pub groups: Vec<String>,
    pub action: Action,
}

pub struct LocalAccountView {
    pub id: Seq<char>,
    pub groups: Seq<Seq<char>>,
    pub action: Action,
}

impl View for LocalAccount {
    type V = LocalAccountView;

    open spec fn view(&self) -> LocalAccountView {
        LocalAccountView { id: self.id@, groups: self.groups.deep_view(), action: self.action }
    }
}

pub open spec fn rview_bool(r: &Result<bool, String>) -> Result<bool, Seq<char>> {
    match r {
        Ok(b) => Ok(*b),
        Err(e) => Err(e@),
    }
}

/// An identifier is a SID where Windows validates it as one, else a RID
/// where it reads as a `u16`, else a user name.
pub open spec fn id_type(id: Seq<char>, sid_check: Result<bool, Seq<char>>) -> IdType {
    if sid_check == Ok::<bool, Seq<char>>(true) {
        IdType::SID
    } else if parse_uint(id, 10, u16::MAX as nat) is Ok {
        IdType::RID
    } else {
        IdType::Username
    }
}

/// How an identifier names an account: `sid_check` is what
/// validating `id` as a SID gave.
pub fn get_type(id: &str, sid_check: &Result<bool, String>) -> (r: IdType)
    ensures
        r == id_type(id@, rview_bool(sid_check)),
{
    match sid_check {
        Ok(true) => IdType::SID,
        _ => match parse_uint_chars(chars_of(id).as_slice(), 10, 65535) {
            Ok(_) => IdType::RID,
            Err(_) => IdType::Username,
        },
    }
}

/// The SID of a RID: the computer's SID, a dash, and the number.
pub open spec fn rid_sid(computer_sid: Seq<char>, rid: u16) -> Seq<char> {
    computer_sid + "-"@ + decimal(rid as nat)
}

/// The SID of a RID; Windows still has to validate it.
pub fn rid_to_sid(computer_sid: &str, rid: u16) -> (r: String)
    ensures
        r@ == rid_sid(computer_sid@, rid),
{
    let d = string_of(fmt_decimal(rid as u128).as_slice());
    cat3(computer_sid, "-", d.as_str())
}

/// The RID of a SID under the computer's SID: what follows the computer's
/// SID and a dash, which must read as a RID number (a `u16` in decimal).
pub open spec fn sid_rid(computer_sid: Seq<char>, sid: Seq<char>) -> Result<Seq<char>, Seq<char>> {
    match strip_prefix(sid, computer_sid + "-"@) {
        Some(rest) => match parse_uint(rest, 10, u16::MAX as nat) {
            Ok(_) => Ok(rest),
            Err(k) => Err("Failed to parse RID: "@ + int_error_text(k)),
        },
        None => Err("SID does not start with the computer SID"@),
    }
}

/// The RID of a SID.
pub fn sid_to_rid(computer_sid: &str, sid_str: &str) -> (r: Result<String, String>)
    ensures
        rview(r) == sid_rid(computer_sid@, sid_str@),
{
    let prefix = cat2(computer_sid, "-");
    match crate::text::strip_prefix_chars(chars_of(sid_str).as_slice(), chars_of(prefix.as_str()).as_slice()) {
        Some(rest) => match parse_uint_chars(rest.as_slice(), 10, 65535) {
            Ok(_) => Ok(string_of(rest.as_slice())),
            Err(k) => {
                let m = int_error_message(k);
                Err(cat2("Failed to parse RID: ", m.as_str()))
            },
        },
        None => Err(lit("SID does not start with the computer SID")),
    }
}

/// The state of an account from what PowerShell printed about it: none
/// where the command failed, enabled where it printed `True` in any case.
pub open spec fn account_status_spec(success: bool, stdout: Seq<char>) -> Action {
    if !success {
        Action::NotExist
    } else if ascii_upper(trim(stdout)) == "TRUE"@ {
        Action::Enabled
    } else {
        Action::Disabled
    }
}

/// The state of an account, from
/// whether the command ran and succeeded and what it printed.
pub fn account_status(success: bool, stdout: &str) -> (r: Action)
    ensures
        r == account_status_spec(success, stdout@),
{
    if !success {
        return Action::NotExist;
    }
    let t = crate::text::trim_str(stdout);
    let u = crate::text::ascii_upper_chars(t.as_slice());
    let want = chars_of("TRUE");
    if crate::text::seq_eq(u.as_slice(), want.as_slice()) {
        Action::Enabled
    } else {
        Action::Disabled
    }
}

pub open spec fn account_to_raw(a: LocalAccountView) -> RawView {
    RawView {
        method: "local_user"@,
        target: a.id,
        option1: join(a.groups, ","@),
        option2: seq![],
        scope: seq![],
        action: action_name(a.action),
    }
}

/// The account a raw method describes; reading an unknown state panics.
pub open spec fn account_from_raw(r: RawView) -> LocalAccountView {
    LocalAccountView { id: r.target, groups: split(r.option1, ","@), action: action_from_name(r.action)->Ok_0 }
}

/// What applying an account rule does: nothing; create the account and add
/// it to its groups; enable it and add it to its groups; disable it; or
/// delete it.
#[derive(Debug)]
pub enum AccountChange {
    Nothing,
    Create { name: String, groups: Vec<String> },
    Enable { sid: String, groups: Vec<String> },
    Disable { sid: String },
    Delete { sid: String },
}

pub enum AccountChangeView {
    Nothing,
    Create { name: Seq<char>, groups: Seq<Seq<char>> },
    Enable { sid: Seq<char>, groups: Seq<Seq<char>> },
    Disable { sid: Seq<char> },
    Delete { sid: Seq<char> },
}

impl View for AccountChange {
    type V = AccountChangeView;

    open spec fn view(&self) -> AccountChangeView {
        match self {
            AccountChange::Nothing => AccountChangeView::Nothing,
            AccountChange::Create { name, groups } => AccountChangeView::Create {
                name: name@,
                groups: groups.deep_view(),
            },
            AccountChange::Enable { sid, groups } => AccountChangeView::Enable {
                sid: sid@,
                groups: groups.deep_view(),
            },
            AccountChange::Disable { sid } => AccountChangeView::Disable { sid: sid@ },
            AccountChange::Delete { sid } => AccountChangeView::Delete { sid: sid@ },
        }
    }
}

/// The change that brings an account to the wanted state: needed where
/// its state or its groups (as SIDs) differ from the wanted ones.
pub open spec fn account_change(
    wanted: LocalAccountView,
    current: LocalAccountView,
    wanted_groups: Seq<Seq<char>>,
    current_groups: Seq<Seq<char>>,
    current_sid: Seq<char>,
) -> AccountChangeView {
    if current.action == wanted.action && current_groups == wanted_groups {
        AccountChangeView::Nothing
    } else {
        match wanted.action {
            Action::Enabled => if current.action == Action::NotExist {
                AccountChangeView::Create { name: wanted.id, groups: wanted_groups }
            } else {
                AccountChangeView::Enable { sid: current_sid, groups: wanted_groups }
            },
            Action::Disabled => AccountChangeView::Disable { sid: current_sid },
            Action::NotExist => AccountChangeView::Delete { sid: current_sid },
        }
    }
}

fn strings_equal(a: &Vec<String>, b: &Vec<String>) -> (r: bool)
    ensures
        r == (a.deep_view() == b.deep_view()),
{
    if a.len() != b.len() {
        assert(a.deep_view().len() != b.deep_view().len());
        return false;
    }
    let mut i: usize = 0;
    while i < a.len()
        invariant
            i <= a@.len(),
            a@.len() == b@.len(),
            forall|j: int| 0 <= j < i ==> a.deep_view()[j] == b.deep_view()[j],
        decreases a@.len() - i,
    {
        if !str_eq(a[i].as_str(), b[i].as_str()) {
            assert(a.deep_view()[i as int] != b.deep_view()[i as int]);
            return false;
        }
        i = i + 1;
    }
    assert(a.deep_view() =~= b.deep_view());
    true
}

pub open spec fn status_command(sid: Seq<char>) -> Seq<char> {
    "Get-LocalUser -SID "@ + sid + " | Select-Object -ExpandProperty Enabled"@
}

pub open spec fn create_user_command(name: Seq<char>) -> Seq<char> {
    "New-LocalUser -Name '"@ + name + "' -NoPassword -Description 'Created by promethee'"@
}

pub open spec fn password_policy_command(sid: Seq<char>) -> Seq<char> {
    "Set-LocalUser -SID "@ + sid + " -PasswordNeverExpires $false"@
}

pub open spec fn user_command(verb: Seq<char>, sid: Seq<char>) -> Seq<char> {
    verb + "-LocalUser -SID "@ + sid
}

/// The command that prints whether an account is enabled.
pub fn user_status_command(sid: &str) -> (r: String)
    ensures
        r@ == status_command(sid@),
{
    cat3("Get-LocalUser -SID ", sid, " | Select-Object -ExpandProperty Enabled")
}

/// The command that creates an account without a password.
pub fn user_create_command(name: &str) -> (r: String)
    ensures
        r@ == create_user_command(name@),
{
    cat3("New-LocalUser -Name '", name, "' -NoPassword -Description 'Created by promethee'")
}

/// The command that makes an account's password expire.
pub fn user_password_policy_command(sid: &str) -> (r: String)
    ensures
        r@ == password_policy_command(sid@),
{
    cat3("Set-LocalUser -SID ", sid, " -PasswordNeverExpires $false")
}

/// The command that enables (verb `Enable`), disables (`Disable`) or
/// deletes (`Remove`) an account.
pub fn user_change_command(verb: &str, sid: &str) -> (r: String)
    ensures
        r@ == user_command(verb@, sid@),
{
    cat3(verb, "-LocalUser -SID ", sid)
}

impl LocalAccount {
    pub fn to_raw(&self, compare_mode: bool) -> (r: RawMethod)
        ensures
            r@ == account_to_raw(self@),
    {
        let r = RawMethod {
            method: lit("local_user"),
            target: copy_string(&self.id),
            option1: crate::text::join_strs(self.groups.as_slice(), ","),
            option2: lit(""),
            scope: lit(""),
            action: lit(self.action.name()),
        };
        proof {
            reveal_strlit("");
        }
        assert(r@.option2 =~= Seq::<char>::empty());
        r
    }

    /// Reads an account from its raw method; its state must be known.
    pub fn from_raw(raw: RawMethod) -> (r: Result<LocalAccount, String>)
        requires
            action_from_name(raw@.action) is Ok,
        ensures
            r is Ok && r->Ok_0@ == account_from_raw(raw@),
    {
        let action = match Action::from_name(raw.action.as_str()) {
            Ok(a) => a,
            Err(_) => Action::NotExist,
        };
        proof {
            reveal_strlit(",");
        }
        let groups = split_str(raw.option1.as_str(), ",");
        Ok(LocalAccount { id: raw.target, groups, action })
    }

    /// The change that brings the account to this rule's state, given its
    /// current state, the SIDs of the wanted and current groups, and its
    /// current SID.
    pub fn account_change(
        &self,
        current: &LocalAccount,
        wanted_groups: &Vec<String>,
        current_groups: &Vec<String>,
        current_sid: &str,
    ) -> (r: AccountChange)
        ensures
            r@ == account_change(self@, current@, wanted_groups.deep_view(), current_groups.deep_view(), current_sid@),
    {
        if current.action == self.action && strings_equal(current_groups, wanted_groups) {
            return AccountChange::Nothing;
        }
        match self.action {
            Action::Enabled => if current.action == Action::NotExist {
                AccountChange::Create { name: copy_string(&self.id), groups: crate::lgpo::copy_strings(wanted_groups) }
            } else {
                AccountChange::Enable { sid: lit(current_sid), groups: crate::lgpo::copy_strings(wanted_groups) }
            },
            Action::Disabled => AccountChange::Disable { sid: lit(current_sid) },
            Action::NotExist => AccountChange::Delete { sid: lit(current_sid) },
        }
    }

    /// The account as it is now, as a raw method: `status` is its state
    /// where it could be read, and `id` and `groups` what it is known as
    /// and belongs to, in the rule's forms.
    pub fn current_value(&self, status: Option<Action>, id: String, groups: Vec<String>) -> (r: RawMethod)
        ensures
            r@ == match status {
                Some(a) => if a == Action::NotExist {
                    account_to_raw(LocalAccountView { action: Action::NotExist, ..self@ })
                } else {
                    account_to_raw(LocalAccountView { id: id@, groups: groups.deep_view(), action: a })
                },
                None => account_to_raw(LocalAccountView { action: Action::NotExist, ..self@ }),
            },
    {
        match status {
            Some(a) => if a == Action::NotExist {
                LocalAccount {
                    id: copy_string(&self.id),
                    groups: crate::lgpo::copy_strings(&self.groups),
                    action: Action::NotExist,
                }.to_raw(false)
            } else {
                LocalAccount { id, groups, action: a }.to_raw(false)
            },
            None => LocalAccount {
                id: copy_string(&self.id),
                groups: crate::lgpo::copy_strings(&self.groups),
                action: Action::NotExist,
            }.to_raw(false),
        }
    }
}

/// The RID read from the SID of a RID is that RID's number.
pub proof fn lemma_rid_roundtrip(computer_sid: Seq<char>, rid: u16)
    ensures
        sid_rid(computer_sid, rid_sid(computer_sid, rid)) == Ok::<Seq<char>, Seq<char>>(decimal(rid as nat)),
        parse_uint(decimal(rid as nat), 10, u16::MAX as nat) == Ok::<nat, crate::num::IntErrorKind>(rid as nat),
{
    let p = computer_sid + "-"@;
    let s = rid_sid(computer_sid, rid);
    assert(s.take(p.len() as int) =~= p);
    assert(s.skip(p.len() as int) =~= decimal(rid as nat));
    crate::num::lemma_decimal_roundtrip(rid as nat, u16::MAX as nat);
    assert(strip_prefix(s, p) == Some(decimal(rid as nat)));
}

/// An account read from its raw method is the account written, where it
/// has groups and none holds a comma.
pub proof fn lemma_account_raw_roundtrip(a: LocalAccountView)
    requires
        a.groups.len() > 0,
        forall|i: int, j: int| 0 <= i < a.groups.len() && 0 <= j < a.groups[i].len() ==> a.groups[i][j] != ',',
    ensures
        account_from_raw(account_to_raw(a)) == a,
{
    reveal_strlit(",");
    assert(","@ =~= seq![',']);
    crate::text::lemma_split_join_single(a.groups, ',');
    lemma_action_name_roundtrip(a.action);
}

/// The state an account is in once a change is made to it.
pub open spec fn state_after(change: AccountChangeView, before: Action) -> Action {
    match change {
        AccountChangeView::Nothing => before,
        AccountChangeView::Create { .. } => Action::Enabled,
        AccountChangeView::Enable { .. } => Action::Enabled,
        AccountChangeView::Disable { .. } => Action::Disabled,
        AccountChangeView::Delete { .. } => Action::NotExist,
    }
}

/// The groups (as SIDs) an account is in once a change is made to it:
/// creating or enabling it sets them, other changes leave them.
pub open spec fn groups_after(change: AccountChangeView, before: Seq<Seq<char>>) -> Seq<Seq<char>> {
    match change {
        AccountChangeView::Create { groups, .. } => groups,
        AccountChangeView::Enable { groups, .. } => groups,
        _ => before,
    }
}

/// The change decided for an account brings it to the wanted state, and an
/// enabled account into exactly the wanted groups; nothing is done only
/// when both the state and the groups already match; a created account
/// gets the wanted name, the others are named by their SID.
pub proof fn lemma_account_change_reaches(
    wanted: LocalAccountView,
    current: LocalAccountView,
    wanted_groups: Seq<Seq<char>>,
    current_groups: Seq<Seq<char>>,
    current_sid: Seq<char>,
)
    ensures
        ({
            let c = account_change(wanted, current, wanted_groups, current_groups, current_sid);
            &&& state_after(c, current.action) == wanted.action
            &&& wanted.action == Action::Enabled ==> groups_after(c, current_groups) == wanted_groups
            &&& (c is Nothing <==> (current.action == wanted.action && current_groups == wanted_groups))
            &&& (c matches AccountChangeView::Create { name, .. } ==> name == wanted.id
                && current.action == Action::NotExist)
            &&& (c matches AccountChangeView::Enable { sid, .. } ==> sid == current_sid)
            &&& (c matches AccountChangeView::Disable { sid } ==> sid == current_sid)
            &&& (c matches AccountChangeView::Delete { sid } ==> sid == current_sid)
        }),
{
}

} // verus!
