//! Rules: a line of the rules file, its method of any kind, and how rules
//! are compared, reported and read.
use vstd::prelude::*;

use crate::advanced_auditing::{auditing_from_raw, auditing_to_raw, AdvancedAuditing, AdvancedAuditingView};
use crate::appx_package::{appx_from_raw, appx_to_raw, AppxPackage, AppxPackageView};
use crate::firewall::{firewall_from_raw, firewall_to_raw, FirewallRule, FirewallRuleView};
use crate::lgpo::{copy_string, copy_strings, lgpo_from_raw, lgpo_to_raw, LgpoView, LocalGroupPolicyObject};
use crate::local_group::{group_from_raw, group_to_raw, LocalGroup, LocalGroupView};
use crate::local_user::{account_from_raw, account_to_raw, LocalAccount, LocalAccountView};
use crate::raw::{lit, CsvRecord, RawMethod, RawView};
use crate::safer::{safer_from_raw, safer_raw_readable, safer_to_raw, PolicyView, SoftwareRestrictionPolicy};
use crate::secedit::{raw_scope_value, scope_value_readable, secedit_from_raw, secedit_to_raw, SecEdit, SecEditView};
use crate::service::{service_from_raw, service_to_raw, Service, ServiceView};
use crate::text::{cat2, cat3, chars_of, join, split, split_str, str_eq, string_of, trim};
use crate::windows_capability::{capability_from_raw, capability_to_raw, WindowsCapability, WindowsCapabilityView};
use crate::windows_optional_feature::{
    feature_from_raw, feature_to_raw, WindowsOptionalFeature, WindowsOptionalFeatureView,
};

verus! {

/// The method of a rule, of any kind.
#[derive(Debug)]
pub enum Method {
    AdvancedAuditing(AdvancedAuditing),
    AppxPackage(AppxPackage),
    Firewall(FirewallRule),
    Lgpo(LocalGroupPolicyObject),
    LocalGroup(LocalGroup),
    LocalUser(LocalAccount),
    Safer(SoftwareRestrictionPolicy),
    SecEdit(SecEdit),
    Service(Service),
    WindowsCapability(WindowsCapability),
    WindowsOptionalFeature(WindowsOptionalFeature),
}

pub enum MethodView {
    AdvancedAuditing(AdvancedAuditingView),
    AppxPackage(AppxPackageView),
    Firewall(FirewallRuleView),
    Lgpo(LgpoView),
    LocalGroup(LocalGroupView),
    LocalUser(LocalAccountView),
    Safer(PolicyView),
    SecEdit(SecEditView),
    Service(ServiceView),
    WindowsCapability(WindowsCapabilityView),
    WindowsOptionalFeature(WindowsOptionalFeatureView),
}

impl View for Method {
    type V = MethodView;

    open spec fn view(&self) -> MethodView {
        match self {
            Method::AdvancedAuditing(m) => MethodView::AdvancedAuditing(m@),
            Method::AppxPackage(m) => MethodView::AppxPackage(m@),
            Method::Firewall(m) => MethodView::Firewall(m@),
            Method::Lgpo(m) => MethodView::Lgpo(m@),
            Method::LocalGroup(m) => MethodView::LocalGroup(m@),
            Method::LocalUser(m) => MethodView::LocalUser(m@),
            Method::Safer(m) => MethodView::Safer(m@),
            Method::SecEdit(m) => MethodView::SecEdit(m@),
            Method::Service(m) => MethodView::Service(m@),
            Method::WindowsCapability(m) => MethodView::WindowsCapability(m@),
            Method::WindowsOptionalFeature(m) => MethodView::WindowsOptionalFeature(m@),
        }
    }
}

/// The raw form of a method of any kind; in compare mode, the parts
/// compared without regard to case are lower case.
pub open spec fn method_to_raw(m: MethodView, compare_mode: bool) -> RawView {
    match m {
        MethodView::AdvancedAuditing(x) => auditing_to_raw(x, compare_mode),
        MethodView::AppxPackage(x) => appx_to_raw(x),
        MethodView::Firewall(x) => firewall_to_raw(x),
        MethodView::Lgpo(x) => lgpo_to_raw(x, compare_mode),
        MethodView::LocalGroup(x) => group_to_raw(x),
        MethodView::LocalUser(x) => account_to_raw(x),
        MethodView::Safer(x) => safer_to_raw(x),
        MethodView::SecEdit(x) => secedit_to_raw(x),
        MethodView::Service(x) => service_to_raw(x),
        MethodView::WindowsCapability(x) => capability_to_raw(x),
        MethodView::WindowsOptionalFeature(x) => feature_to_raw(x),
    }
}

/// The names of the kinds of method, in the order the registry lists them.
pub open spec fn method_names() -> Seq<Seq<char>> {
    seq![
        "advanced_auditing"@,
        "appx_package"@,
        "firewall"@,
        "lgpo"@,
        "local_group"@,
        "local_user"@,
        "safer"@,
        "secedit"@,
        "service"@,
        "windows_capability"@,
        "windows_optional_feature"@,
    ]
}

/// The method a raw method names, read as its kind reads it; `None` where
/// the name is no kind of method.
pub open spec fn method_from_raw(r: RawView) -> Option<MethodView> {
    let n = r.method;
    if n == "advanced_auditing"@ {
        Some(MethodView::AdvancedAuditing(auditing_from_raw(r)->Ok_0))
    } else if n == "appx_package"@ {
        Some(MethodView::AppxPackage(appx_from_raw(r)->Ok_0))
    } else if n == "firewall"@ {
        Some(MethodView::Firewall(firewall_from_raw(r)->0))
    } else if n == "lgpo"@ {
        Some(MethodView::Lgpo(lgpo_from_raw(r)->Ok_0))
    } else if n == "local_group"@ {
        Some(MethodView::LocalGroup(group_from_raw(r)->Ok_0))
    } else if n == "local_user"@ {
        Some(MethodView::LocalUser(account_from_raw(r)))
    } else if n == "safer"@ {
        Some(MethodView::Safer(safer_from_raw(r)->Ok_0))
    } else if n == "secedit"@ {
        Some(MethodView::SecEdit(secedit_from_raw(r)->Ok_0))
    } else if n == "service"@ {
        Some(MethodView::Service(service_from_raw(r)->Ok_0))
    } else if n == "windows_capability"@ {
        Some(MethodView::WindowsCapability(capability_from_raw(r)->Ok_0))
    } else if n == "windows_optional_feature"@ {
        Some(MethodView::WindowsOptionalFeature(feature_from_raw(r)->Ok_0))
    } else {
        None
    }
}

/// A raw method that reading does not panic on: its kind reads it
/// without error (the registry unwraps what the kind gives).
pub open spec fn method_readable(r: RawView) -> bool {
    let n = r.method;
    if n == "advanced_auditing"@ {
        auditing_from_raw(r) is Ok
    } else if n == "appx_package"@ {
        appx_from_raw(r) is Ok
    } else if n == "firewall"@ {
        firewall_from_raw(r) is Some
    } else if n == "lgpo"@ {
        lgpo_from_raw(r) is Ok
    } else if n == "local_group"@ {
        group_from_raw(r) is Ok
    } else if n == "local_user"@ {
        crate::local_user::action_from_name(r.action) is Ok
    } else if n == "safer"@ {
        safer_raw_readable(r) && safer_from_raw(r) is Ok
    } else if n == "secedit"@ {
        scope_value_readable(raw_scope_value(r)) && secedit_from_raw(r) is Ok
    } else if n == "service"@ {
        service_from_raw(r) is Ok
    } else if n == "windows_capability"@ {
        capability_from_raw(r) is Ok
    } else if n == "windows_optional_feature"@ {
        feature_from_raw(r) is Ok
    } else {
        true
    }
}

/// Whether reading a raw method does not panic.
pub fn method_readable_exec(raw: &RawMethod) -> (r: bool)
    ensures
        r == method_readable(raw@),
{
    let n = raw.method.as_str();
    if str_eq(n, "advanced_auditing") {
        AdvancedAuditing::from_raw(raw.copy()).is_ok()
    } else if str_eq(n, "appx_package") {
        AppxPackage::from_raw(raw.copy()).is_ok()
    } else if str_eq(n, "firewall") {
        crate::firewall::firewall_readable(raw)
    } else if str_eq(n, "lgpo") {
        LocalGroupPolicyObject::from_raw(raw.copy()).is_ok()
    } else if str_eq(n, "local_group") {
        LocalGroup::from_raw(raw.copy()).is_ok()
    } else if str_eq(n, "local_user") {
        crate::local_user::Action::from_name(raw.action.as_str()).is_ok()
    } else if str_eq(n, "safer") {
        match crate::safer::RuleType::from_name(raw.scope.as_str()) {
            Ok(crate::safer::RuleType::Hashes) => false,
            _ => SoftwareRestrictionPolicy::from_raw(raw.copy()).is_ok(),
        }
    } else if str_eq(n, "secedit") {
        let a = cat2(raw.scope.as_str(), ":");
        let text = cat2(a.as_str(), raw.action.as_str());
        if crate::secedit::scope_value_readable_exec(text.as_str()) {
            SecEdit::from_raw(raw.copy()).is_ok()
        } else {
            false
        }
    } else if str_eq(n, "service") {
        Service::from_raw(raw.copy()).is_ok()
    } else if str_eq(n, "windows_capability") {
        WindowsCapability::from_raw(raw.copy()).is_ok()
    } else if str_eq(n, "windows_optional_feature") {
        WindowsOptionalFeature::from_raw(raw.copy()).is_ok()
    } else {
        true
    }
}

/// What every kind of method gives: its raw form.
pub trait RuleTrait {
    fn to_raw(&self, compare_mode: bool) -> RawMethod;
}

impl RuleTrait for Method {
    fn to_raw(&self, compare_mode: bool) -> (r: RawMethod)
        ensures
            r@ == method_to_raw(self@, compare_mode),
    {
        self.raw(compare_mode)
    }
}

impl Method {
    /// The raw form of this method.
    pub fn raw(&self, compare_mode: bool) -> (r: RawMethod)
        ensures
            r@ == method_to_raw(self@, compare_mode),
    {
        match self {
            Method::AdvancedAuditing(m) => m.to_raw(compare_mode),
            Method::AppxPackage(m) => m.to_raw(compare_mode),
            Method::Firewall(m) => m.to_raw(compare_mode),
            Method::Lgpo(m) => m.to_raw(compare_mode),
            Method::LocalGroup(m) => m.to_raw(compare_mode),
            Method::LocalUser(m) => m.to_raw(compare_mode),
            Method::Safer(m) => m.to_raw(compare_mode),
            Method::SecEdit(m) => m.to_raw(compare_mode),
            Method::Service(m) => m.to_raw(compare_mode),
            Method::WindowsCapability(m) => m.to_raw(compare_mode),
            Method::WindowsOptionalFeature(m) => m.to_raw(compare_mode),
        }
    }

    /// Reads the method a raw method names.
    pub fn from_raw(raw: RawMethod) -> (r: Option<Method>)
        requires
            method_readable(raw@),
        ensures
            match method_from_raw(raw@) {
                Some(m) => r is Some && r->0@ == m,
                None => r is None,
            },
    {
        let n = raw.method.as_str();
        if str_eq(n, "advanced_auditing") {
            match AdvancedAuditing::from_raw(raw) {
                Ok(m) => Some(Method::AdvancedAuditing(m)),
                Err(_) => None,
            }
        } else if str_eq(n, "appx_package") {
            match AppxPackage::from_raw(raw) {
                Ok(m) => Some(Method::AppxPackage(m)),
                Err(_) => None,
            }
        } else if str_eq(n, "firewall") {
            match FirewallRule::from_raw(raw) {
                Ok(m) => Some(Method::Firewall(m)),
                Err(_) => None,
            }
        } else if str_eq(n, "lgpo") {
            match LocalGroupPolicyObject::from_raw(raw) {
                Ok(m) => Some(Method::Lgpo(m)),
                Err(_) => None,
            }
        } else if str_eq(n, "local_group") {
            match LocalGroup::from_raw(raw) {
                Ok(m) => Some(Method::LocalGroup(m)),
                Err(_) => None,
            }
        } else if str_eq(n, "local_user") {
            match LocalAccount::from_raw(raw) {
                Ok(m) => Some(Method::LocalUser(m)),
                Err(_) => None,
            }
        } else if str_eq(n, "safer") {
            match SoftwareRestrictionPolicy::from_raw(raw) {
                Ok(m) => Some(Method::Safer(m)),
                Err(_) => None,
            }
        } else if str_eq(n, "secedit") {
            match SecEdit::from_raw(raw) {
                Ok(m) => Some(Method::SecEdit(m)),
                Err(_) => None,
            }
        } else if str_eq(n, "service") {
            match Service::from_raw(raw) {
                Ok(m) => Some(Method::Service(m)),
                Err(_) => None,
            }
        } else if str_eq(n, "windows_capability") {
            match WindowsCapability::from_raw(raw) {
                Ok(m) => Some(Method::WindowsCapability(m)),
                Err(_) => None,
            }
        } else if str_eq(n, "windows_optional_feature") {
            match WindowsOptionalFeature::from_raw(raw) {
                Ok(m) => Some(Method::WindowsOptionalFeature(m)),
                Err(_) => None,
            }
        } else {
            None
        }
    }
}

// ------------------------------------------------------------------
// Rules
// ------------------------------------------------------------------

/// A rule of the rules file.
#[derive(Debug)]
pub struct Rule {
    pub id: String,
    pub name: String,
    pub category: String,
    pub method: Method,
    pub tags: Vec<String>,
}

pub struct RuleView {
    pub id: Seq<char>,
    pub name: Seq<char>,
    pub category: Seq<char>,
    pub method: MethodView,
    pub tags: Seq<Seq<char>>,
}

impl View for Rule {
    type V = RuleView;

    open spec fn view(&self) -> RuleView {
        RuleView {
            id: self.id@,
            name: self.name@,
            category: self.category@,
            method: self.method@,
            tags: self.tags.deep_view(),
        }
    }
}

/// Two rules are the same where their identity, tags and compared raw
/// methods are.
pub open spec fn rule_same(a: RuleView, b: RuleView) -> bool {
    &&& a.id == b.id
    &&& a.name == b.name
    &&& a.category == b.category
    &&& a.tags == b.tags
    &&& method_to_raw(a.method, true) == method_to_raw(b.method, true)
}

/// The ten fields of a line of the rules file.
pub struct CsvView {
    pub id: Seq<char>,
    pub name: Seq<char>,
    pub category: Seq<char>,
    pub method: Seq<char>,
    pub target: Seq<char>,
    pub option1: Seq<char>,
    pub option2: Seq<char>,
    pub scope: Seq<char>,
    pub action: Seq<char>,
    pub tags: Seq<char>,
}

pub open spec fn csv_view(c: &CsvRecord) -> CsvView {
    CsvView {
        id: c.id@,
        name: c.name@,
        category: c.category@,
        method: c.method@,
        target: c.target@,
        option1: c.option1@,
        option2: c.option2@,
        scope: c.scope@,
        action: c.action@,
        tags: c.tags@,
    }
}

/// The line of the rules file that a rule is written as.
pub open spec fn rule_to_csv(r: RuleView) -> CsvView {
    let raw = method_to_raw(r.method, false);
    CsvView {
        id: r.id,
        name: r.name,
        category: r.category,
        method: raw.method,
        target: raw.target,
        option1: raw.option1,
        option2: raw.option2,
        scope: raw.scope,
        action: raw.action,
        tags: join(r.tags, ","@),
    }
}

/// The tags of a line: its tag field cut at commas, each trimmed.
pub open spec fn tags_of(s: Seq<char>) -> Seq<Seq<char>> {
    split(s, ","@).map_values(|t: Seq<char>| trim(t))
}

/// The rule a line of the rules file describes, or the error for a
/// method of no known kind.
pub open spec fn rule_from_csv(c: CsvView) -> Result<RuleView, Seq<char>> {
    let raw = RawView {
        method: c.method,
        target: c.target,
        option1: c.option1,
        option2: c.option2,
        scope: c.scope,
        action: c.action,
    };
    match method_from_raw(raw) {
        Some(m) => Ok(RuleView { id: c.id, name: c.name, category: c.category, method: m, tags: tags_of(c.tags) }),
        None => Err("Invalid method '"@ + c.method + "' in record '"@ + c.id + "'."@),
    }
}

/// How `{:?}` prints a list of strings (its escapes are std's).
pub uninterp spec fn debug_list(v: Seq<Seq<char>>) -> Seq<char>;

/// Prints a list of strings with `{:?}`; the text is named, not described.
#[verifier::external_body]
fn debug_strings(v: &Vec<String>) -> (r: String)
    ensures
        r@ == debug_list(v.deep_view()),
{
    format!("{:?}", v)
}

/// One line of a difference: where the texts differ, the field, what was
/// expected and what was found.
pub open spec fn diff_line(label: Seq<char>, a: Seq<char>, b: Seq<char>) -> Seq<Seq<char>> {
    if a != b {
        seq![label + ": expected "@ + a + " found "@ + b]
    } else {
        seq![]
    }
}

/// The differences between two rules, field by field, in order.
pub open spec fn rule_diffs(a: RuleView, b: RuleView) -> Seq<Seq<char>> {
    let r1 = method_to_raw(a.method, true);
    let r2 = method_to_raw(b.method, true);
    diff_line("id"@, a.id, b.id) + diff_line("name"@, a.name, b.name) + diff_line(
        "category"@,
        a.category,
        b.category,
    ) + diff_line("method"@, r1.method, r2.method) + diff_line("target"@, r1.target, r2.target) + diff_line(
        "option1"@,
        r1.option1,
        r2.option1,
    ) + diff_line("option2"@, r1.option2, r2.option2) + diff_line("scope"@, r1.scope, r2.scope) + diff_line(
        "action"@,
        r1.action,
        r2.action,
    ) + (if a.tags != b.tags {
        seq!["tags: expected "@ + debug_list(a.tags) + " found "@ + debug_list(b.tags)]
    } else {
        seq![]
    })
}

/// The differences between two rules as one line.
pub open spec fn pretty_diff_spec(a: RuleView, b: RuleView) -> Seq<char> {
    if rule_diffs(a, b).len() == 0 {
        "No differences"@
    } else {
        join(rule_diffs(a, b), ", "@)
    }
}

fn strings_equal(a: &Vec<String>, b: &Vec<String>) -> (r: bool)
    ensures
        r == (a.deep_view() == b.deep_view()),
{
    if a.len() != b.len() {
        assert(a.deep_view().len() != b.deep_view().len());
        return false;
    }
    let mut i: usize = 0;
    while i < a.len()
        invariant
            i <= a@.len(),
            a@.len() == b@.len(),
            forall|j: int| 0 <= j < i ==> a.deep_view()[j] == b.deep_view()[j],
        decreases a@.len() - i,
    {
        if !str_eq(a[i].as_str(), b[i].as_str()) {
            assert(a.deep_view()[i as int] != b.deep_view()[i as int]);
            return false;
        }
        i = i + 1;
    }
    assert(a.deep_view() =~= b.deep_view());
    true
}

fn push_diff(diffs: &mut Vec<String>, label: &str, a: &String, b: &String)
    ensures
        final(diffs).deep_view() == old(diffs).deep_view() + diff_line(label@, a@, b@),
{
    let ghost before = diffs.deep_view();
    if !str_eq(a.as_str(), b.as_str()) {
        let x = cat3(label, ": expected ", a.as_str());
        let y = cat3(x.as_str(), " found ", b.as_str());
        diffs.push(y);
        assert(diffs.deep_view() =~= before + diff_line(label@, a@, b@));
    } else {
        assert(before + diff_line(label@, a@, b@) =~= before);
    }
}

impl Rule {
    /// Whether two rules are the same.
    pub fn same(&self, other: &Rule) -> (r: bool)
        ensures
            r == rule_same(self@, other@),
    {
        str_eq(self.id.as_str(), other.id.as_str()) && str_eq(self.name.as_str(), other.name.as_str()) && str_eq(
            self.category.as_str(),
            other.category.as_str(),
        ) && strings_equal(&self.tags, &other.tags) && self.method.raw(true).same(&other.method.raw(true))
    }

    /// The line of the rules file this rule is written as.
    pub fn to_csv(&self) -> (r: CsvRecord)
        ensures
            csv_view(&r) == rule_to_csv(self@),
    {
        let raw = self.method.raw(false);
        CsvRecord {
            id: copy_string(&self.id),
            name: copy_string(&self.name),
            category: copy_string(&self.category),
            method: raw.method,
            target: raw.target,
            option1: raw.option1,
            option2: raw.option2,
            scope: raw.scope,
            action: raw.action,
            tags: crate::text::join_strs(self.tags.as_slice(), ","),
        }
    }

    /// This rule with its method as it is now: `current` is the method's
    /// current value, read as a method of its kind.
    pub fn backup(&self, current: RawMethod) -> (r: Result<Rule, String>)
        requires
            method_readable(current@),
        ensures
            match method_from_raw(current@) {
                Some(m) => r is Ok && r->Ok_0@ == (RuleView { method: m, ..self@ }),
                None => r is Err && r->Err_0@ == "Invalid method '"@ + current@.method + "'"@,
            },
    {
        let name = copy_string(&current.method);
        match Method::from_raw(current) {
            Some(method) => Ok(
                Rule {
                    id: copy_string(&self.id),
                    name: copy_string(&self.name),
                    category: copy_string(&self.category),
                    method,
                    tags: copy_strings(&self.tags),
                },
            ),
            None => Err(cat3("Invalid method '", name.as_str(), "'")),
        }
    }

    /// The rule's identifier and name.
    pub fn pretty_display(&self) -> (r: String)
        ensures
            r@ == self.id@ + " "@ + self.name@,
    {
        cat3(self.id.as_str(), " ", self.name.as_str())
    }

    /// The differences between an expected rule and the one found.
    pub fn pretty_diff(r1: &Rule, r2: &Rule) -> (r: String)
        ensures
            r@ == pretty_diff_spec(r1@, r2@),
    {
        let mut diffs: Vec<String> = Vec::new();
        assert(diffs.deep_view() =~= Seq::<Seq<char>>::empty());
        push_diff(&mut diffs, "id", &r1.id, &r2.id);
        push_diff(&mut diffs, "name", &r1.name, &r2.name);
        push_diff(&mut diffs, "category", &r1.category, &r2.category);
        let raw1 = r1.method.raw(true);
        let raw2 = r2.method.raw(true);
        push_diff(&mut diffs, "method", &raw1.method, &raw2.method);
        push_diff(&mut diffs, "target", &raw1.target, &raw2.target);
        push_diff(&mut diffs, "option1", &raw1.option1, &raw2.option1);
        push_diff(&mut diffs, "option2", &raw1.option2, &raw2.option2);
        push_diff(&mut diffs, "scope", &raw1.scope, &raw2.scope);
        push_diff(&mut diffs, "action", &raw1.action, &raw2.action);
        let ghost before = diffs.deep_view();
        if !strings_equal(&r1.tags, &r2.tags) {
            let a = debug_strings(&r1.tags);
            let b = debug_strings(&r2.tags);
            let x = cat3("tags: expected ", a.as_str(), " found ");
            diffs.push(cat2(x.as_str(), b.as_str()));
            assert(diffs.deep_view() =~= before + seq![
                "tags: expected "@ + debug_list(r1@.tags) + " found "@ + debug_list(r2@.tags),
            ]);
        } else {
            assert(before + Seq::<Seq<char>>::empty() =~= before);
        }
        assert(diffs.deep_view() =~= rule_diffs(r1@, r2@));
        if diffs.len() == 0 {
            lit("No differences")
        } else {
            crate::text::join_strs(diffs.as_slice(), ", ")
        }
    }
}

fn trimmed_parts(s: &str) -> (r: Vec<String>)
    ensures
        r.deep_view() == tags_of(s@),
{
    proof {
        reveal_strlit(",");
    }
    let parts = split_str(s, ",");
    let mut out: Vec<String> = Vec::new();
    let mut i: usize = 0;
    while i < parts.len()
        invariant
            i <= parts@.len(),
            parts.deep_view() == split(s@, ","@),
            out@.len() == i,
            forall|j: int| 0 <= j < i ==> (#[trigger] out@[j])@ == trim(parts.deep_view()[j]),
        decreases parts@.len() - i,
    {
        let t = crate::text::trim_str(parts[i].as_str());
        out.push(string_of(t.as_slice()));
        i = i + 1;
    }
    assert(out.deep_view() =~= tags_of(s@));
    out
}

/// The rule a line of the rules file describes (what `parse_csv` makes of
/// each record).
pub fn rule_from_record(record: CsvRecord) -> (r: Result<Rule, String>)
    requires
        method_readable(record.to_raw_view()),
    ensures
        match rule_from_csv(csv_view(&record)) {
            Ok(v) => r is Ok && r->Ok_0@ == v,
            Err(e) => r is Err && r->Err_0@ == e,
        },
{
    let raw = record.to_raw();
    let tags = trimmed_parts(record.tags.as_str());
    match Method::from_raw(raw) {
        Some(method) => Ok(Rule { id: record.id, name: record.name, category: record.category, method, tags }),
        None => {
            let a = cat3("Invalid method '", record.method.as_str(), "' in record '");
            Err(cat3(a.as_str(), record.id.as_str(), "'."))
        },
    }
}

impl CsvRecord {
    pub open spec fn to_raw_view(&self) -> RawView {
        RawView {
            method: self.method@,
            target: self.target@,
            option1: self.option1@,
            option2: self.option2@,
            scope: self.scope@,
            action: self.action@,
        }
    }
}

// ------------------------------------------------------------------
// Suggesting a method
// ------------------------------------------------------------------

pub open spec fn min3(a: nat, b: nat, c: nat) -> nat {
    if a <= b && a <= c {
        a
    } else if b <= c {
        b
    } else {
        c
    }
}

/// The least number of insertions, deletions and substitutions of
/// characters that change one text into the other.
pub open spec fn edit_distance(a: Seq<char>, b: Seq<char>) -> nat
    decreases a.len() + b.len(),
{
    if a.len() == 0 {
        b.len()
    } else if b.len() == 0 {
        a.len()
    } else {
        min3(
            edit_distance(a.drop_last(), b) + 1,
            edit_distance(a, b.drop_last()) + 1,
            edit_distance(a.drop_last(), b.drop_last()) + (if a.last() == b.last() {
                0nat
            } else {
                1nat
            }),
        )
    }
}

/// `strsim::levenshtein`, which its documentation describes as the
/// least number of insertions, deletions and substitutions that change one
/// string into the other.
#[verifier::external_body]
fn levenshtein(a: &str, b: &str) -> (r: usize)
    ensures
        r == edit_distance(a@, b@),
{
    strsim::levenshtein(a, b)
}

/// The method name closest to an unknown one: the first of least edit
/// distance.
pub open spec fn is_suggestion(names: Seq<Seq<char>>, m: Seq<char>, i: int) -> bool {
    &&& 0 <= i < names.len()
    &&& forall|j: int| 0 <= j < names.len() ==> edit_distance(names[i], m) <= edit_distance(#[trigger] names[j], m)
    &&& forall|j: int| 0 <= j < i ==> edit_distance(names[i], m) < edit_distance(#[trigger] names[j], m)
}

/// The method name to suggest for an unknown one.
pub fn suggest_method(method: &str) -> (r: String)
    ensures
        exists|i: int| is_suggestion(method_names(), method@, i) && r@ == #[trigger] method_names()[i],
{
    let names: Vec<&str> = vec![
        "advanced_auditing",
        "appx_package",
        "firewall",
        "lgpo",
        "local_group",
        "local_user",
        "safer",
        "secedit",
        "service",
        "windows_capability",
        "windows_optional_feature",
    ];
    let ghost ns = names@.map_values(|n: &str| n@);
    assert(ns =~= method_names());
    let mut best: usize = 0;
    let mut best_d = levenshtein(names[0], method);
    let mut i: usize = 1;
    while i < names.len()
        invariant
            1 <= i <= names@.len(),
            names@.len() == 11,
            ns == names@.map_values(|n: &str| n@),
            best < i,
            best_d == edit_distance(ns[best as int], method@),
            forall|j: int| 0 <= j < i ==> best_d <= edit_distance(#[trigger] ns[j], method@),
            forall|j: int| 0 <= j < best ==> best_d < edit_distance(#[trigger] ns[j], method@),
        decreases names@.len() - i,
    {
        let d = levenshtein(names[i], method);
        assert(ns[i as int] == names@[i as int]@);
        if d < best_d {
            best = i;
            best_d = d;
        }
        i = i + 1;
    }
    assert(is_suggestion(method_names(), method@, best as int));
    lit(names[best])
}

// ------------------------------------------------------------------
// The command line
// ------------------------------------------------------------------

/// What the tool is run to do.
#[derive(Debug)]
pub enum Mode {
    Apply { config: String, skip_restore_point: bool },
    Backup { config: String, output: String },
    Audit { config: String, report: bool, report_file: Option<String> },
}

/// The command line.
#[derive(Debug)]
pub struct Args {
    pub mode: Mode,
    pub verbose: u8,
    pub quiet: u8,
    pub log: bool,
    pub log_file: Option<String>,
}

/// Verbosity counts that fit the signed byte of their difference.
pub open spec fn verbosity_fits(verbose: u8, quiet: u8) -> bool {
    -128 <= (verbose as i8) - (quiet as i8) <= 127
}

impl Args {
    /// Whether the difference of the counts fits a signed byte.
    pub fn verbosity_fits_exec(&self) -> (r: bool)
        ensures
            r == verbosity_fits(self.verbose, self.quiet),
    {
        let v = (self.verbose as i8) as i16 - (self.quiet as i8) as i16;
        -128 <= v && v <= 127
    }

    /// `-v`s less `-q`s, each count taken as a signed byte.
    pub fn verbosity(&self) -> (r: i8)
        requires
            verbosity_fits(self.verbose, self.quiet),
        ensures
            r == (self.verbose as i8) - (self.quiet as i8),
    {
        (self.verbose as i8) - (self.quiet as i8)
    }

    /// The rules file of any mode.
    pub fn config_location(&self) -> (r: String)
        ensures
            r@ == match self.mode {
                Mode::Apply { config, .. } => config@,
                Mode::Backup { config, .. } => config@,
                Mode::Audit { config, .. } => config@,
            },
    {
        match &self.mode {
            Mode::Apply { config, .. } => copy_string(config),
            Mode::Backup { config, .. } => copy_string(config),
            Mode::Audit { config, .. } => copy_string(config),
        }
    }
}

/// Which messages are logged.
#[derive(Debug, Clone, Copy, PartialEq, Eq, Structural)]
pub enum LogLevel {
    Off,
    Error,
    Warn,
    /// Informational messages and errors, without warnings.
    Normal,
    Debug,
    Trace,
}

/// The messages logged at a verbosity: three `-q` or more log nothing, two
/// only errors, one warnings and errors; none logs information and errors
/// but no warnings; one `-v` adds debugging messages, two or more tracing.
pub open spec fn log_level_spec(verbosity: i8) -> LogLevel {
    if verbosity <= -3 {
        LogLevel::Off
    } else if verbosity == -2 {
        LogLevel::Error
    } else if verbosity == -1 {
        LogLevel::Warn
    } else if verbosity == 0 {
        LogLevel::Normal
    } else if verbosity == 1 {
        LogLevel::Debug
    } else {
        LogLevel::Trace
    }
}

/// The messages logged at a verbosity (the choice `setup_logging` makes).
pub fn log_level(verbosity: i8) -> (r: LogLevel)
    ensures
        r == log_level_spec(verbosity),
{
    if verbosity <= -3 {
        LogLevel::Off
    } else if verbosity == -2 {
        LogLevel::Error
    } else if verbosity == -1 {
        LogLevel::Warn
    } else if verbosity == 0 {
        LogLevel::Normal
    } else if verbosity == 1 {
        LogLevel::Debug
    } else {
        LogLevel::Trace
    }
}

// ------------------------------------------------------------------
// Laws of rules
// ------------------------------------------------------------------

/// Being the same rule is an equivalence.
pub proof fn lemma_rule_same_equivalence(a: RuleView, b: RuleView, c: RuleView)
    ensures
        rule_same(a, a),
        rule_same(a, b) ==> rule_same(b, a),
        rule_same(a, b) && rule_same(b, c) ==> rule_same(a, c),
{
}

/// Lines that are not empty and do not begin with `N`.
pub open spec fn lines_ok(d: Seq<Seq<char>>) -> bool {
    forall|k: int| 0 <= k < d.len() ==> (#[trigger] d[k]).len() > 0 && d[k][0] != 'N'
}

proof fn lemma_lines_ok_add(x: Seq<Seq<char>>, y: Seq<Seq<char>>)
    requires
        lines_ok(x),
        lines_ok(y),
    ensures
        lines_ok(x + y),
{
    assert forall|k: int| 0 <= k < (x + y).len() implies (#[trigger] (x + y)[k]).len() > 0 && (x + y)[k][0] != 'N' by {
        if k < x.len() {
            assert((x + y)[k] == x[k]);
        } else {
            assert((x + y)[k] == y[k - x.len()]);
        }
    }
}

proof fn lemma_diff_ok(label: Seq<char>, a: Seq<char>, b: Seq<char>)
    requires
        label.len() > 0,
        label[0] != 'N',
    ensures
        lines_ok(diff_line(label, a, b)),
{
    if a != b {
        let l = label + ": expected "@ + a + " found "@ + b;
        assert(l[0] == label[0]);
    }
}

proof fn lemma_labels()
    ensures
        "id"@[0] == 'i' && "id"@.len() == 2,
        "name"@[0] == 'n' && "name"@.len() == 4,
        "category"@[0] == 'c' && "category"@.len() == 8,
        "method"@[0] == 'm' && "method"@.len() == 6,
        "target"@[0] == 't' && "target"@.len() == 6,
        "option1"@[0] == 'o' && "option1"@.len() == 7,
        "option2"@[0] == 'o' && "option2"@.len() == 7,
        "scope"@[0] == 's' && "scope"@.len() == 5,
        "action"@[0] == 'a' && "action"@.len() == 6,
        "tags: expected "@[0] == 't' && "tags: expected "@.len() == 15,
        "No differences"@[0] == 'N' && "No differences"@.len() == 14,
{
    reveal_strlit("id");
    reveal_strlit("name");
    reveal_strlit("category");
    reveal_strlit("method");
    reveal_strlit("target");
    reveal_strlit("option1");
    reveal_strlit("option2");
    reveal_strlit("scope");
    reveal_strlit("action");
    reveal_strlit("tags: expected ");
    reveal_strlit("No differences");
}

/// The difference of two rules reads "No differences" exactly where they
/// are the same rule.
#[verifier::rlimit(40)]
pub proof fn lemma_pretty_diff_same(a: RuleView, b: RuleView)
    ensures
        (pretty_diff_spec(a, b) == "No differences"@) == rule_same(a, b),
{
    lemma_labels();
    let r1 = method_to_raw(a.method, true);
    let r2 = method_to_raw(b.method, true);
    let p1 = diff_line("id"@, a.id, b.id);
    let p2 = diff_line("name"@, a.name, b.name);
    let p3 = diff_line("category"@, a.category, b.category);
    let p4 = diff_line("method"@, r1.method, r2.method);
    let p5 = diff_line("target"@, r1.target, r2.target);
    let p6 = diff_line("option1"@, r1.option1, r2.option1);
    let p7 = diff_line("option2"@, r1.option2, r2.option2);
    let p8 = diff_line("scope"@, r1.scope, r2.scope);
    let p9 = diff_line("action"@, r1.action, r2.action);
    let p10: Seq<Seq<char>> = if a.tags != b.tags {
        seq!["tags: expected "@ + debug_list(a.tags) + " found "@ + debug_list(b.tags)]
    } else {
        seq![]
    };
    let d = rule_diffs(a, b);
    assert(d == p1 + p2 + p3 + p4 + p5 + p6 + p7 + p8 + p9 + p10);
    lemma_diff_ok("id"@, a.id, b.id);
    lemma_diff_ok("name"@, a.name, b.name);
    lemma_diff_ok("category"@, a.category, b.category);
    lemma_diff_ok("method"@, r1.method, r2.method);
    lemma_diff_ok("target"@, r1.target, r2.target);
    lemma_diff_ok("option1"@, r1.option1, r2.option1);
    lemma_diff_ok("option2"@, r1.option2, r2.option2);
    lemma_diff_ok("scope"@, r1.scope, r2.scope);
    lemma_diff_ok("action"@, r1.action, r2.action);
    if a.tags != b.tags {
        let t = "tags: expected "@ + debug_list(a.tags) + " found "@ + debug_list(b.tags);
        assert(t[0] == 't');
    }
    assert(lines_ok(p10));
    lemma_lines_ok_add(p1, p2);
    lemma_lines_ok_add(p1 + p2, p3);
    lemma_lines_ok_add(p1 + p2 + p3, p4);
    lemma_lines_ok_add(p1 + p2 + p3 + p4, p5);
    lemma_lines_ok_add(p1 + p2 + p3 + p4 + p5, p6);
    lemma_lines_ok_add(p1 + p2 + p3 + p4 + p5 + p6, p7);
    lemma_lines_ok_add(p1 + p2 + p3 + p4 + p5 + p6 + p7, p8);
    lemma_lines_ok_add(p1 + p2 + p3 + p4 + p5 + p6 + p7 + p8, p9);
    lemma_lines_ok_add(p1 + p2 + p3 + p4 + p5 + p6 + p7 + p8 + p9, p10);
    assert(lines_ok(d));
    if d.len() == 0 {
        assert(p1.len() == 0 && p2.len() == 0 && p3.len() == 0 && p4.len() == 0 && p5.len() == 0);
        assert(p6.len() == 0 && p7.len() == 0 && p8.len() == 0 && p9.len() == 0 && p10.len() == 0);
        assert(r1 == r2);
    } else {
        assert(d[0].len() > 0 && d[0][0] != 'N');
        crate::text::lemma_join_first(d, ", "@);
        assert(pretty_diff_spec(a, b)[0] != 'N');
        if rule_same(a, b) {
            assert(p1.len() == 0 && p2.len() == 0 && p3.len() == 0 && p4.len() == 0 && p5.len() == 0);
            assert(p6.len() == 0 && p7.len() == 0 && p8.len() == 0 && p9.len() == 0 && p10.len() == 0);
        }
    }
}

/// A rule written to the rules file and read back keeps its identity and
/// tags (where it has tags, none holding a comma or surrounding
/// whitespace), and its method is what its kind reads from its raw form.
pub proof fn lemma_rule_csv_roundtrip(r: RuleView)
    requires
        r.tags.len() > 0,
        forall|i: int, j: int| 0 <= i < r.tags.len() && 0 <= j < r.tags[i].len() ==> r.tags[i][j] != ',',
        forall|i: int| 0 <= i < r.tags.len() ==> trim(#[trigger] r.tags[i]) == r.tags[i],
    ensures
        rule_from_csv(rule_to_csv(r)) == Ok::<RuleView, Seq<char>>(
            RuleView { method: method_from_raw(method_to_raw(r.method, false))->0, ..r },
        ),
{
    reveal_strlit(",");
    assert(","@ =~= seq![',']);
    crate::text::lemma_split_join_single(r.tags, ',');
    assert(tags_of(join(r.tags, ","@)) =~= r.tags);
    lemma_method_names_known(r.method);
}

/// The rule as an audit finds it: its method read back from the current
/// value.
pub open spec fn audited(r: RuleView, current: RawView) -> Option<RuleView> {
    match method_from_raw(current) {
        Some(m) => Some(RuleView { method: m, ..r }),
        None => None,
    }
}

/// The names of the kinds of method tell each other apart.
proof fn lemma_method_names_differ()
    ensures
        "advanced_auditing"@.len() == 17,
        "appx_package"@.len() == 12,
        "firewall"@.len() == 8,
        "lgpo"@.len() == 4,
        "local_group"@.len() == 11,
        "local_user"@.len() == 10,
        "safer"@.len() == 5,
        "secedit"@.len() == 7,
        "service"@.len() == 7,
        "secedit"@[2] == 'c',
        "service"@[2] == 'r',
        "windows_capability"@.len() == 18,
        "windows_optional_feature"@.len() == 24,
{
    reveal_strlit("advanced_auditing");
    reveal_strlit("appx_package");
    reveal_strlit("firewall");
    reveal_strlit("lgpo");
    reveal_strlit("local_group");
    reveal_strlit("local_user");
    reveal_strlit("safer");
    reveal_strlit("secedit");
    reveal_strlit("service");
    reveal_strlit("windows_capability");
    reveal_strlit("windows_optional_feature");
}

/// Applying an `lgpo` rule and then auditing it finds it compliant: the
/// current value of its setting, once the setting is put into the policy's
/// settings, reads back as the same rule, where its configuration and
/// action read back from their text.
pub proof fn lemma_lgpo_apply_then_audit(r: RuleView, lgpos: Seq<LgpoView>)
    requires
        r.method matches MethodView::Lgpo(e) && crate::lgpo::configuration_stable(e.configuration)
            && crate::lgpo::action_stable(e.action),
    ensures
        ({
            let e = r.method->Lgpo_0;
            let current = crate::lgpo::setting_current_raw(crate::lgpo::put_setting(lgpos, e), e);
            &&& method_readable(current)
            &&& audited(r, current) matches Some(found)
            &&& rule_same(r, found)
        }),
{
    let e = r.method->Lgpo_0;
    crate::lgpo::lemma_execute_then_current(lgpos, e);
    crate::lgpo::lemma_lgpo_raw_roundtrip(e);
    lemma_method_names_differ();
}

/// Applying a `secedit` rule and then auditing it finds it compliant: once
/// the setting is written into the template, its current value reads back
/// as the same rule, where the setting can be written and read back (its
/// rights in ascending order, its value not ending in whitespace, and not
/// `-NODATA-`, which removes the field).
pub proof fn lemma_secedit_apply_then_audit(r: RuleView, config: Map<Seq<char>, Map<Seq<char>, Seq<char>>>)
    requires
        r.method matches MethodView::SecEdit(s) && crate::secedit::set_field_spec(config, s) is Ok
            && crate::secedit::rereadable(s.scope_value) && crate::secedit::stored_value(s.scope_value)->Ok_0
            != "-NODATA-"@ && !crate::text::is_ws(
            crate::secedit::format_scope_value(s.scope_value).last(),
        ) && (s.scope_value matches crate::secedit::ScopeValueView::PrivilegeRights(ids) ==> crate::text::sorted_strs(
            ids,
        )) && (s.scope_value matches crate::secedit::ScopeValueView::RegistryValues(a)
            ==> crate::lgpo::action_stable(a)),
    ensures
        ({
            let s = r.method->SecEdit_0;
            let after = crate::secedit::set_field_spec(config, s)->Ok_0;
            &&& crate::secedit::get_field_spec(after, s) == Ok::<SecEditView, Seq<char>>(s)
            &&& method_readable(secedit_to_raw(s))
            &&& audited(r, secedit_to_raw(s)) matches Some(found)
            &&& rule_same(r, found)
        }),
{
    let s = r.method->SecEdit_0;
    crate::secedit::lemma_set_then_get(config, s);
    crate::secedit::lemma_secedit_raw_roundtrip(s);
    lemma_method_names_differ();
}

/// Applying a `service` rule and then auditing it finds it compliant: once
/// its action is recorded in the template, its current value reads back as
/// the same rule, whatever the registry holds.
pub proof fn lemma_service_apply_then_audit(
    r: RuleView,
    config: Map<Seq<char>, Map<Seq<char>, Seq<char>>>,
    registry_start: u32,
)
    requires
        r.method is Service,
    ensures
        ({
            let s = r.method->Service_0;
            let after = crate::service::set_service_spec(config, s);
            &&& crate::service::current_action_spec(after, s.name, registry_start) == Ok::<
                crate::service::Action,
                Seq<char>,
            >(s.action)
            &&& method_readable(service_to_raw(s))
            &&& audited(r, service_to_raw(s)) matches Some(found)
            &&& rule_same(r, found)
        }),
{
    let s = r.method->Service_0;
    crate::service::lemma_set_then_current(config, s, registry_start);
    crate::service::lemma_service_raw_roundtrip(s);
    lemma_method_names_differ();
}

/// Applying a `safer` rule and then auditing it finds it compliant: once
/// the rule is applied to the rules, its current value reads back as the
/// same rule, where no rule of its target that should not exist comes
/// first, its target fits its type, and its description is not empty and
/// does not begin with the tool's prefix.
pub proof fn lemma_safer_apply_then_audit(r: RuleView, v: Seq<PolicyView>)
    requires
        r.method matches MethodView::Safer(p) && (crate::safer::find_target(v, p.target) matches Some(i)
            ==> v[i].state != crate::safer::State::NotExists) && (p.rule_type == crate::safer::RuleType::Paths
            ==> p.target is Path) && (p.rule_type == crate::safer::RuleType::UrlZones ==> p.target is UrlZone)
            && p.rule_type != crate::safer::RuleType::Hashes && (p.description matches Some(d) ==> d.len() > 0
            && !crate::text::starts_with(d, crate::safer::description_prefix())),
    ensures
        ({
            let p = r.method->Safer_0;
            let current = crate::safer::safer_current(crate::safer::safer_execute(v, p), p);
            &&& current == safer_to_raw(p)
            &&& method_readable(current)
            &&& audited(r, current) matches Some(found)
            &&& rule_same(r, found)
        }),
{
    let p = r.method->Safer_0;
    crate::safer::lemma_execute_then_current(v, p);
    crate::safer::lemma_safer_raw_roundtrip(p);
    lemma_method_names_differ();
}

/// The name of a method's kind.
pub open spec fn method_name(m: MethodView) -> Seq<char> {
    match m {
        MethodView::AdvancedAuditing(_) => "advanced_auditing"@,
        MethodView::AppxPackage(_) => "appx_package"@,
        MethodView::Firewall(_) => "firewall"@,
        MethodView::Lgpo(_) => "lgpo"@,
        MethodView::LocalGroup(_) => "local_group"@,
        MethodView::LocalUser(_) => "local_user"@,
        MethodView::Safer(_) => "safer"@,
        MethodView::SecEdit(_) => "secedit"@,
        MethodView::Service(_) => "service"@,
        MethodView::WindowsCapability(_) => "windows_capability"@,
        MethodView::WindowsOptionalFeature(_) => "windows_optional_feature"@,
    }
}

/// Every kind's raw form carries the kind's name, which the registry
/// knows.
pub proof fn lemma_method_names_known(m: MethodView)
    ensures
        method_to_raw(m, false).method == method_name(m),
        method_from_raw(method_to_raw(m, false)) is Some,
{
    reveal_strlit("advanced_auditing");
    reveal_strlit("appx_package");
    reveal_strlit("firewall");
    reveal_strlit("lgpo");
    reveal_strlit("local_group");
    reveal_strlit("local_user");
    reveal_strlit("safer");
    reveal_strlit("secedit");
    reveal_strlit("service");
    reveal_strlit("windows_capability");
    reveal_strlit("windows_optional_feature");
}

proof fn lemma_contains_add(s: Seq<Seq<char>>, t: Seq<Seq<char>>, x: Seq<char>)
    ensures
        s.contains(x) || t.contains(x) ==> (s + t).contains(x),
{
    if s.contains(x) {
        let i = choose|i: int| 0 <= i < s.len() && s[i] == x;
        assert((s + t)[i] == x);
    } else if t.contains(x) {
        let i = choose|i: int| 0 <= i < t.len() && t[i] == x;
        assert((s + t)[s.len() + i] == x);
    }
}

proof fn lemma_diff_line_names(label: Seq<char>, x: Seq<char>, y: Seq<char>)
    ensures
        x != y ==> diff_line(label, x, y).contains(label + ": expected "@ + x + " found "@ + y),
{
    if x != y {
        assert(diff_line(label, x, y)[0] == label + ": expected "@ + x + " found "@ + y);
    }
}

proof fn lemma_in_diffs(
    p1: Seq<Seq<char>>,
    p2: Seq<Seq<char>>,
    p3: Seq<Seq<char>>,
    p4: Seq<Seq<char>>,
    p5: Seq<Seq<char>>,
    p6: Seq<Seq<char>>,
    p7: Seq<Seq<char>>,
    p8: Seq<Seq<char>>,
    p9: Seq<Seq<char>>,
    p10: Seq<Seq<char>>,
    x: Seq<char>,
)
    ensures
        p1.contains(x) || p2.contains(x) || p3.contains(x) || p4.contains(x) || p5.contains(x) || p6.contains(x)
            || p7.contains(x) || p8.contains(x) || p9.contains(x) || p10.contains(x) ==> (p1 + p2 + p3 + p4 + p5
            + p6 + p7 + p8 + p9 + p10).contains(x),
{
    lemma_contains_add(p1, p2, x);
    lemma_contains_add(p1 + p2, p3, x);
    lemma_contains_add(p1 + p2 + p3, p4, x);
    lemma_contains_add(p1 + p2 + p3 + p4, p5, x);
    lemma_contains_add(p1 + p2 + p3 + p4 + p5, p6, x);
    lemma_contains_add(p1 + p2 + p3 + p4 + p5 + p6, p7, x);
    lemma_contains_add(p1 + p2 + p3 + p4 + p5 + p6 + p7, p8, x);
    lemma_contains_add(p1 + p2 + p3 + p4 + p5 + p6 + p7 + p8, p9, x);
    lemma_contains_add(p1 + p2 + p3 + p4 + p5 + p6 + p7 + p8 + p9, p10, x);
}

/// Two rules are the same exactly when their id, name, category and tags
/// are equal and every field of their compared raw methods is equal, the
/// scope included; each of those fields that differs is reported in the
/// differences by its label, with the expected and the found value, and
/// the report reads `No differences` only for rules that are the same.
pub proof fn lemma_rule_same_fields(a: RuleView, b: RuleView)
    ensures
        ({
            let r1 = method_to_raw(a.method, true);
            let r2 = method_to_raw(b.method, true);
            let d = rule_diffs(a, b);
            &&& rule_same(a, b) <==> (a.id == b.id && a.name == b.name && a.category == b.category && a.tags
                == b.tags && r1.method == r2.method && r1.target == r2.target && r1.option1 == r2.option1
                && r1.option2 == r2.option2 && r1.scope == r2.scope && r1.action == r2.action)
            &&& (pretty_diff_spec(a, b) == "No differences"@) <==> rule_same(a, b)
            &&& a.id != b.id ==> d.contains("id"@ + ": expected "@ + a.id + " found "@ + b.id)
            &&& a.name != b.name ==> d.contains("name"@ + ": expected "@ + a.name + " found "@ + b.name)
            &&& a.category != b.category ==> d.contains("category"@ + ": expected "@ + a.category + " found "@ + b.category)
            &&& r1.method != r2.method ==> d.contains("method"@ + ": expected "@ + r1.method + " found "@ + r2.method)
            &&& r1.target != r2.target ==> d.contains("target"@ + ": expected "@ + r1.target + " found "@ + r2.target)
            &&& r1.option1 != r2.option1 ==> d.contains("option1"@ + ": expected "@ + r1.option1 + " found "@ + r2.option1)
            &&& r1.option2 != r2.option2 ==> d.contains("option2"@ + ": expected "@ + r1.option2 + " found "@ + r2.option2)
            &&& r1.scope != r2.scope ==> d.contains("scope"@ + ": expected "@ + r1.scope + " found "@ + r2.scope)
            &&& r1.action != r2.action ==> d.contains("action"@ + ": expected "@ + r1.action + " found "@ + r2.action)
        }),
{
    let r1 = method_to_raw(a.method, true);
    let r2 = method_to_raw(b.method, true);
    let p1 = diff_line("id"@, a.id, b.id);
    let p2 = diff_line("name"@, a.name, b.name);
    let p3 = diff_line("category"@, a.category, b.category);
    let p4 = diff_line("method"@, r1.method, r2.method);
    let p5 = diff_line("target"@, r1.target, r2.target);
    let p6 = diff_line("option1"@, r1.option1, r2.option1);
    let p7 = diff_line("option2"@, r1.option2, r2.option2);
    let p8 = diff_line("scope"@, r1.scope, r2.scope);
    let p9 = diff_line("action"@, r1.action, r2.action);
    let p10: Seq<Seq<char>> = if a.tags != b.tags {
        seq!["tags: expected "@ + debug_list(a.tags) + " found "@ + debug_list(b.tags)]
    } else {
        seq![]
    };
    let d = rule_diffs(a, b);
    assert(d == p1 + p2 + p3 + p4 + p5 + p6 + p7 + p8 + p9 + p10);
    lemma_diff_line_names("id"@, a.id, b.id);
    lemma_diff_line_names("name"@, a.name, b.name);
    lemma_diff_line_names("category"@, a.category, b.category);
    lemma_diff_line_names("method"@, r1.method, r2.method);
    lemma_diff_line_names("target"@, r1.target, r2.target);
    lemma_diff_line_names("option1"@, r1.option1, r2.option1);
    lemma_diff_line_names("option2"@, r1.option2, r2.option2);
    lemma_diff_line_names("scope"@, r1.scope, r2.scope);
    lemma_diff_line_names("action"@, r1.action, r2.action);
    let lines = seq![
        "id"@ + ": expected "@ + a.id + " found "@ + b.id,
        "name"@ + ": expected "@ + a.name + " found "@ + b.name,
        "category"@ + ": expected "@ + a.category + " found "@ + b.category,
        "method"@ + ": expected "@ + r1.method + " found "@ + r2.method,
        "target"@ + ": expected "@ + r1.target + " found "@ + r2.target,
        "option1"@ + ": expected "@ + r1.option1 + " found "@ + r2.option1,
        "option2"@ + ": expected "@ + r1.option2 + " found "@ + r2.option2,
        "scope"@ + ": expected "@ + r1.scope + " found "@ + r2.scope,
        "action"@ + ": expected "@ + r1.action + " found "@ + r2.action,
    ];
    lemma_in_diffs(p1, p2, p3, p4, p5, p6, p7, p8, p9, p10, lines[0]);
    lemma_in_diffs(p1, p2, p3, p4, p5, p6, p7, p8, p9, p10, lines[1]);
    lemma_in_diffs(p1, p2, p3, p4, p5, p6, p7, p8, p9, p10, lines[2]);
    lemma_in_diffs(p1, p2, p3, p4, p5, p6, p7, p8, p9, p10, lines[3]);
    lemma_in_diffs(p1, p2, p3, p4, p5, p6, p7, p8, p9, p10, lines[4]);
    lemma_in_diffs(p1, p2, p3, p4, p5, p6, p7, p8, p9, p10, lines[5]);
    lemma_in_diffs(p1, p2, p3, p4, p5, p6, p7, p8, p9, p10, lines[6]);
    lemma_in_diffs(p1, p2, p3, p4, p5, p6, p7, p8, p9, p10, lines[7]);
    lemma_in_diffs(p1, p2, p3, p4, p5, p6, p7, p8, p9, p10, lines[8]);
    lemma_pretty_diff_same(a, b);
}

} // verus!
