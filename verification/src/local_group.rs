//! Local groups: whether a group exists, and what the PowerShell output
//! about groups and their members says.
use vstd::prelude::*;

use crate::lgpo::copy_string;
use crate::raw::{lit, RawMethod, RawView};
use crate::text::{cat2, cat3, chars_of, concat, rview, str_eq, string_of, trimmed_lines, trimmed_lines_exec, unknown_variant, unknown_variant_message};

verus! {

/// Whether a local group should exist.
#[derive(Debug, Clone, Copy, PartialEq, Eq, Structural)]
pub enum Action {
    NotExist,
    Exist,
}

/// How each `Action` is written in text.
pub open spec fn action_name(x: Action) -> Seq<char> {
    match x {
        Action::NotExist => "not_exist"@,
        Action::Exist => "exist"@,
    }
}

pub open spec fn action_names() -> Seq<Seq<char>> {
    seq!["not_exist"@, "exist"@]
}

/// Reads the `Action` written as `s`; any other text is an unknown variant.
pub open spec fn action_from_name(s: Seq<char>) -> Result<Action, Seq<char>> {
    if s == "not_exist"@ {
        Ok(Action::NotExist)
    } else if s == "exist"@ {
        Ok(Action::Exist)
    } else {
        Err(unknown_variant(s, action_names()))
    }
}

impl Action {
    pub fn name(&self) -> (r: &'static str)
        ensures
            r@ == action_name(*self),
    {
        match self {
            Action::NotExist => "not_exist",
            Action::Exist => "exist",
        }
    }

    /// Reads the `Action` written as `s`.
    pub fn from_name(s: &str) -> (r: Result<Action, String>)
        ensures
            match action_from_name(s@) {
                Ok(x) => r == Ok::<Action, String>(x),
                Err(e) => r is Err && r->Err_0@ == e,
            },
    {
        let names: Vec<&str> = vec!["not_exist", "exist"];
        if str_eq(s, "not_exist") {
            Ok(Action::NotExist)
        } else if str_eq(s, "exist") {
            Ok(Action::Exist)
        } else {
            assert(names@.map_values(|n: &str| n@) =~= action_names());
            let v = chars_of(s);
            Err(unknown_variant_message(v.as_slice(), &names))
        }
    }
}

proof fn lemma_action_names()
    ensures
        "not_exist"@ == seq!['n', 'o', 't', '_', 'e', 'x', 'i', 's', 't'],
        "exist"@ == seq!['e', 'x', 'i', 's', 't'],
{
    reveal_strlit("not_exist");
    reveal_strlit("exist");
    assert("not_exist"@ =~= seq!['n', 'o', 't', '_', 'e', 'x', 'i', 's', 't']);
    assert("exist"@ =~= seq!['e', 'x', 'i', 's', 't']);
}

/// The text of each `Action` reads back as it.
pub proof fn lemma_action_name_roundtrip(x: Action)
    ensures
        action_from_name(action_name(x)) == Ok::<Action, Seq<char>>(x),
{
    lemma_action_names();
    assert("not_exist"@.len() != "exist"@.len());
}

/// How an account or group is named: by name or by SID.
#[derive(Debug, Clone, Copy, PartialEq, Eq, Structural)]
pub enum IdType {
    Name,
    SID,
}

/// A local group, its members' SIDs, and whether it should exist.
#[derive(Debug)]
pub struct LocalGroup {
    pub id: String,
    pub members: Vec<String>,
    pub action: Action,
}

pub struct LocalGroupView {
    pub id: Seq<char>,
    pub members: Seq<Seq<char>>,
    pub action: Action,
}

impl View for LocalGroup {
    type V = LocalGroupView;

    open spec fn view(&self) -> LocalGroupView {
        LocalGroupView { id: self.id@, members: self.members.deep_view(), action: self.action }
    }
}

pub open spec fn groups_view(v: Seq<LocalGroup>) -> Seq<LocalGroupView> {
    v.map_values(|g: LocalGroup| g@)
}

/// An identifier is a SID where Windows validates it as one; a check that
/// fails counts as no.
pub open spec fn id_type(sid_check: Result<bool, Seq<char>>) -> IdType {
    if sid_check == Ok::<bool, Seq<char>>(true) {
        IdType::SID
    } else {
        IdType::Name
    }
}

/// Whether an identifier names a group by SID or by name:
/// `sid_check` is what validating `id` as a SID gave.
pub fn get_type(id: &str, sid_check: &Result<bool, String>) -> (r: IdType)
    ensures
        r == id_type(rview_bool(sid_check)),
{
    match sid_check {
        Ok(true) => IdType::SID,
        _ => IdType::Name,
    }
}

pub open spec fn rview_bool(r: &Result<bool, String>) -> Result<bool, Seq<char>> {
    match r {
        Ok(b) => Ok(*b),
        Err(e) => Err(e@),
    }
}

/// The SIDs that PowerShell's table of SIDs lists: its lines after the
/// header, each trimmed.
pub open spec fn table_sids(output: Seq<char>) -> Seq<Seq<char>> {
    trimmed_lines(output).skip(3)
}

/// The SIDs in PowerShell's table output (the lines after the three of
/// its header).
pub fn sids_of_output(output: &str) -> (r: Vec<String>)
    ensures
        r.deep_view() == if trimmed_lines(output@).len() >= 3 {
            table_sids(output@)
        } else {
            Seq::<Seq<char>>::empty()
        },
{
    let lines = trimmed_lines_exec(output);
    let mut out: Vec<String> = Vec::new();
    let mut i: usize = 3;
    let ghost lv = lines.deep_view();
    while i < lines.len()
        invariant
            3 <= i,
            lv == lines.deep_view(),
            i <= lines@.len() || lines@.len() < 3,
            lines@.len() >= 3 ==> out@.len() == i - 3,
            lines@.len() < 3 ==> out@.len() == 0,
            forall|j: int| 0 <= j < out@.len() ==> (#[trigger] out@[j])@ == lv[j + 3],
        decreases lines@.len() - i,
    {
        out.push(copy_string(&lines[i]));
        i = i + 1;
    }
    proof {
        if lv.len() >= 3 {
            assert(out.deep_view() =~= lv.skip(3));
        } else {
            assert(out.deep_view() =~= Seq::<Seq<char>>::empty());
        }
    }
    out
}

/// The groups among these whose members include the SID, in order.
pub open spec fn groups_with_member(groups: Seq<LocalGroupView>, sid: Seq<char>) -> Seq<Seq<char>>
    decreases groups.len(),
{
    if groups.len() == 0 {
        seq![]
    } else {
        let rest = groups_with_member(groups.drop_last(), sid);
        if groups.last().members.contains(sid) {
            rest.push(groups.last().id)
        } else {
            rest
        }
    }
}

fn contains_str(v: &Vec<String>, s: &str) -> (r: bool)
    ensures
        r == v.deep_view().contains(s@),
{
    let mut i: usize = 0;
    while i < v.len()
        invariant
            i <= v@.len(),
            forall|j: int| 0 <= j < i ==> v.deep_view()[j] != s@,
        decreases v@.len() - i,
    {
        if str_eq(v[i].as_str(), s) {
            assert(v.deep_view()[i as int] == s@);
            return true;
        }
        i = i + 1;
    }
    false
}

/// The groups that an account belongs to.
pub fn get_groups_for_account(groups: &Vec<LocalGroup>, sid: &str) -> (r: Vec<String>)
    ensures
        r.deep_view() == groups_with_member(groups_view(groups@), sid@),
{
    let ghost gv = groups_view(groups@);
    let mut out: Vec<String> = Vec::new();
    let mut i: usize = 0;
    assert(gv.take(0) =~= Seq::<LocalGroupView>::empty());
    while i < groups.len()
        invariant
            i <= groups@.len(),
            gv == groups_view(groups@),
            out.deep_view() == groups_with_member(gv.take(i as int), sid@),
        decreases groups@.len() - i,
    {
        let ghost t = gv.take(i + 1);
        assert(t.drop_last() =~= gv.take(i as int));
        assert(t.last() == groups@[i as int]@);
        if contains_str(&groups[i].members, sid) {
            out.push(copy_string(&groups[i].id));
        }
        i = i + 1;
    }
    assert(gv.take(i as int) =~= gv);
    out
}

pub open spec fn group_to_raw(g: LocalGroupView) -> RawView {
    RawView {
        method: "local_group"@,
        target: g.id,
        option1: seq![],
        option2: seq![],
        scope: seq![],
        action: action_name(g.action),
    }
}

pub open spec fn group_from_raw(r: RawView) -> Result<LocalGroupView, Seq<char>> {
    match action_from_name(r.action) {
        Ok(a) => Ok(LocalGroupView { id: r.target, members: seq![], action: a }),
        Err(e) => Err("Invalid action '"@ + r.action + "' : "@ + e),
    }
}

/// The command that lists the SIDs of the local groups.
pub open spec fn groups_command() -> Seq<char> {
    "Get-LocalGroup | Select-Object SID"@
}

/// The command that lists the SIDs of the local groups.
pub fn groups_query() -> (r: String)
    ensures
        r@ == groups_command(),
{
    crate::text::owned("Get-LocalGroup | Select-Object SID")
}

pub open spec fn members_command(sid: Seq<char>) -> Seq<char> {
    "Get-LocalGroupMember -SID "@ + sid + " | Select-Object SID"@
}

pub open spec fn add_member_command(group_sid: Seq<char>, member: Seq<char>) -> Seq<char> {
    "Add-LocalGroupMember -SID "@ + group_sid + " -Member "@ + member
}

pub open spec fn create_group_command(name: Seq<char>) -> Seq<char> {
    "New-LocalGroup -Name "@ + name + " -Description 'Created by promethee'"@
}

pub open spec fn delete_group_command(sid: Seq<char>) -> Seq<char> {
    "Remove-LocalGroup -SID "@ + sid
}

/// The command that lists the SIDs of a group's members.
pub fn group_members_command(sid: &str) -> (r: String)
    ensures
        r@ == members_command(sid@),
{
    cat3("Get-LocalGroupMember -SID ", sid, " | Select-Object SID")
}

/// The command that adds an account to a group.
pub fn group_add_member_command(group_sid: &str, member: &str) -> (r: String)
    ensures
        r@ == add_member_command(group_sid@, member@),
{
    let a = cat3("Add-LocalGroupMember -SID ", group_sid, " -Member ");
    cat2(a.as_str(), member)
}

/// The command that creates a group.
pub fn group_create_command(name: &str) -> (r: String)
    ensures
        r@ == create_group_command(name@),
{
    cat3("New-LocalGroup -Name ", name, " -Description 'Created by promethee'")
}

/// The command that deletes a group.
pub fn group_delete_command(sid: &str) -> (r: String)
    ensures
        r@ == delete_group_command(sid@),
{
    cat2("Remove-LocalGroup -SID ", sid)
}

impl LocalGroup {
    pub fn to_raw(&self, compare_mode: bool) -> (r: RawMethod)
        ensures
            r@ == group_to_raw(self@),
    {
        let r = RawMethod {
            method: lit("local_group"),
            target: copy_string(&self.id),
            option1: lit(""),
            option2: lit(""),
            scope: lit(""),
            action: lit(self.action.name()),
        };
        proof {
            reveal_strlit("");
        }
        assert(r@.option1 =~= Seq::<char>::empty());
        r
    }

    pub fn from_raw(raw: RawMethod) -> (r: Result<LocalGroup, String>)
        ensures
            rview(r) == group_from_raw(raw@),
    {
        match Action::from_name(raw.action.as_str()) {
            Ok(a) => {
                let g = LocalGroup { id: raw.target, members: Vec::new(), action: a };
                assert(g@.members =~= Seq::<Seq<char>>::empty());
                Ok(g)
            },
            Err(e) => {
                let a = cat3("Invalid action '", raw.action.as_str(), "' : ");
                Err(cat2(a.as_str(), e.as_str()))
            },
        }
    }

    /// What applying this rule changes, given the group's current state:
    /// its action where the group is not in that state, else nothing.
    pub fn required_action(&self, current: &LocalGroup) -> (r: Option<Action>)
        ensures
            r == if current.action != self.action {
                Some(self.action)
            } else {
                None::<Action>
            },
    {
        if current.action != self.action {
            Some(self.action)
        } else {
            None
        }
    }

    /// The group as it is now, as a raw method: `found` is its identifier
    /// (in the rule's form) and members where the group could be resolved.
    pub fn current_value(&self, found: Option<(String, Vec<String>)>) -> (r: RawMethod)
        ensures
            r@ == match found {
                Some((id, members)) => group_to_raw(
                    LocalGroupView { id: id@, members: members.deep_view(), action: Action::Exist },
                ),
                None => group_to_raw(LocalGroupView { action: Action::NotExist, ..self@ }),
            },
    {
        match found {
            Some((id, members)) => LocalGroup { id, members, action: Action::Exist }.to_raw(false),
            None => LocalGroup {
                id: copy_string(&self.id),
                members: Vec::new(),
                action: Action::NotExist,
            }.to_raw(false),
        }
    }
}

/// A group read from its raw method has the identifier and action written.
pub proof fn lemma_group_raw_roundtrip(g: LocalGroupView)
    ensures
        group_from_raw(group_to_raw(g)) == Ok::<LocalGroupView, Seq<char>>(
            LocalGroupView { members: seq![], ..g },
        ),
{
    lemma_action_name_roundtrip(g.action);
}

/// Whether one of the groups with this id lists the SID among its members.
pub open spec fn lists_member(groups: Seq<LocalGroupView>, id: Seq<char>, sid: Seq<char>) -> bool {
    exists|i: int| 0 <= i < groups.len() && (#[trigger] groups[i]).id == id && groups[i].members.contains(sid)
}

/// The groups found for a member are exactly those that list it: every
/// group whose members include the SID is found, and everything found is
/// such a group.
pub proof fn lemma_groups_with_member(groups: Seq<LocalGroupView>, sid: Seq<char>)
    ensures
        forall|i: int| 0 <= i < groups.len() && (#[trigger] groups[i]).members.contains(sid)
            ==> groups_with_member(groups, sid).contains(groups[i].id),
        forall|k: int| 0 <= k < groups_with_member(groups, sid).len() ==> lists_member(
            groups,
            #[trigger] groups_with_member(groups, sid)[k],
            sid,
        ),
    decreases groups.len(),
{
    if groups.len() == 0 {
        assert(groups_with_member(groups, sid).len() == 0);
    } else {
        let init = groups.drop_last();
        let rest = groups_with_member(init, sid);
        let res = groups_with_member(groups, sid);
        lemma_groups_with_member(init, sid);
        let n = groups.len() - 1;
        if groups.last().members.contains(sid) {
            assert(res == rest.push(groups.last().id));
        } else {
            assert(res == rest);
        }
        assert forall|i: int| 0 <= i < groups.len() && (#[trigger] groups[i]).members.contains(sid) implies res.contains(
            groups[i].id,
        ) by {
            if i < n {
                assert(init[i] == groups[i]);
                let j = choose|j: int| 0 <= j < rest.len() && rest[j] == init[i].id;
                assert(res[j] == rest[j]);
            } else {
                assert(res[res.len() - 1] == groups[i].id);
            }
        }
        assert forall|k: int| 0 <= k < res.len() implies lists_member(groups, #[trigger] res[k], sid) by {
            if k < rest.len() {
                assert(res[k] == rest[k]);
                assert(lists_member(init, rest[k], sid));
                let i = choose|i: int| 0 <= i < init.len() && (#[trigger] init[i]).id == rest[k] && init[i].members.contains(sid);
                assert(groups[i] == init[i]);
            } else {
                assert(groups.last().members.contains(sid));
                assert(res == rest.push(groups.last().id));
                assert(groups[n] == groups.last());
                assert(groups[n].id == res[k]);
            }
        }
    }
}

} // verus!
