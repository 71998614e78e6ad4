//! Security template settings, and the text forms of registry values in it.
use vstd::prelude::*;

use crate::config::SecEditConfig;
use crate::lgpo::{copy_string, copy_strings, Action, ActionView};
use crate::num::{decimal, fmt_decimal, int_error_message, int_error_text, parse_uint, parse_uint_chars};
use crate::text::{
    chars_of, concat, join, join_strs, rview, seq_eq, split, split_chars, split_once, split_once_or_all, sorted_of,
    split_once_chars, str_eq, string_of, strings_of, trim, trim_chars, views,
};

verus! {

// ------------------------------------------------------------------
// Registry values of the security template
// ------------------------------------------------------------------

pub open spec fn trim_start_char(s: Seq<char>, c: char) -> Seq<char>
    decreases s.len(),
{
    if s.len() > 0 && s[0] == c {
        trim_start_char(s.drop_first(), c)
    } else {
        s
    }
}

pub open spec fn trim_end_char(s: Seq<char>, c: char) -> Seq<char>
    decreases s.len(),
{
    if s.len() > 0 && s.last() == c {
        trim_end_char(s.drop_last(), c)
    } else {
        s
    }
}

/// `str::trim_matches` with a character.
pub open spec fn trim_matches(s: Seq<char>, c: char) -> Seq<char> {
    trim_end_char(trim_start_char(s, c), c)
}

fn trim_matches_chars(s: &[char], c: char) -> (r: Vec<char>)
    ensures
        r@ == trim_matches(s@, c),
{
    let n = s.len();
    let mut i: usize = 0;
    assert(s@.skip(0) =~= s@);
    while i < n && s[i] == c
        invariant
            i <= n,
            n == s@.len(),
            trim_start_char(s@, c) == trim_start_char(s@.skip(i as int), c),
        decreases n - i,
    {
        assert(s@.skip(i as int).drop_first() =~= s@.skip(i + 1));
        i = i + 1;
    }
    let ghost t = s@.skip(i as int);
    assert(trim_start_char(s@, c) == t) by {
        if i == n {
            assert(t =~= Seq::<char>::empty());
        }
    }
    let mut j: usize = n;
    while j > i && s[j - 1] == c
        invariant
            i <= j <= n,
            n == s@.len(),
            t == s@.skip(i as int),
            trim_end_char(t, c) == trim_end_char(s@.subrange(i as int, j as int), c),
        decreases j,
    {
        assert(s@.subrange(i as int, j as int).drop_last() =~= s@.subrange(i as int, j - 1));
        j = j - 1;
    }
    assert(trim_end_char(s@.subrange(i as int, j as int), c) == s@.subrange(i as int, j as int))
        by {
        if i == j {
            assert(s@.subrange(i as int, j as int) =~= Seq::<char>::empty());
        }
    }
    crate::text::slice_vec(s, i, j)
}

/// The four bytes of a `u32`, least significant first.
pub open spec fn le_bytes(n: nat) -> Seq<u8> {
    seq![(n % 256) as u8, ((n / 256) % 256) as u8, ((n / 65536) % 256) as u8, ((n / 16777216) % 256) as u8]
}

/// The `u32` whose little-endian bytes these are.
pub open spec fn from_le(b: Seq<u8>) -> nat {
    (b[0] + 256 * b[1] + 65536 * b[2] + 16777216 * b[3]) as nat
}

/// A string value of a `7` (multi-string) entry, quoted when it holds a
/// comma or a quote (quotes doubled), and as `" "` when it is empty.
pub open spec fn double_quotes(v: Seq<char>) -> Seq<char>
    decreases v.len(),
{
    if v.len() == 0 {
        seq![]
    } else if v[0] == '"' {
        seq!['"', '"'] + double_quotes(v.drop_first())
    } else {
        seq![v[0]] + double_quotes(v.drop_first())
    }
}

pub open spec fn has_char(v: Seq<char>, c: char) -> bool {
    exists|i: int| 0 <= i < v.len() && v[i] == c
}

pub open spec fn needs_quotes(v: Seq<char>) -> bool {
    has_char(v, ',') || has_char(v, '"')
}

pub open spec fn format_multi_value(v: Seq<char>) -> Seq<char> {
    if v.len() == 0 {
        seq!['"', ' ', '"']
    } else if needs_quotes(v) {
        seq!['"'] + double_quotes(v) + seq!['"']
    } else {
        v
    }
}

/// A value read from a `7` entry: a single space (as the writer puts, in
/// quotes, for an empty string) is read as the empty string.
pub open spec fn finish_value(cur: Seq<char>) -> Seq<char> {
    if cur == seq![' '] {
        seq![]
    } else {
        cur
    }
}

/// What reading a written string gathers before it is finished: a single
/// space for the empty string, else the string.
pub open spec fn multi_read_form(w: Seq<char>) -> Seq<char> {
    if w.len() == 0 {
        seq![' ']
    } else {
        w
    }
}

/// Reads the strings of a `7` entry, one character at a time: quotes
/// switch quoting on and off, a doubled quote inside quotes is a quote,
/// and a comma outside quotes ends a string.
pub open spec fn multi_step(s: Seq<char>, values: Seq<Seq<char>>, cur: Seq<char>, inq: bool) -> Seq<
    Seq<char>,
>
    decreases s.len(),
{
    if s.len() == 0 {
        values.push(finish_value(cur))
    } else if s[0] == '"' {
        if inq && s.len() >= 2 && s[1] == '"' {
            multi_step(s.skip(2), values, cur.push('"'), inq)
        } else {
            multi_step(s.drop_first(), values, cur, !inq)
        }
    } else if s[0] == ',' && !inq {
        multi_step(s.drop_first(), values.push(finish_value(cur)), seq![], inq)
    } else {
        multi_step(s.drop_first(), values, cur.push(s[0]), inq)
    }
}

/// Reads a security template registry value: a type number, a comma, and
/// the data; or `-NODATA-`.
pub open spec fn value_to_registry_action_spec(value: Seq<char>) -> Result<ActionView, Seq<char>> {
    let t = trim(value);
    let split_ok: Option<(Seq<char>, Seq<char>)> = if t == "-NODATA-"@ {
        Some(("-NODATA-"@, seq![]))
    } else {
        split_once(t, ","@)
    };
    match split_ok {
        None => Err("Invalid registry action format: "@ + value),
        Some((ty, v)) => if ty == "1"@ {
            Ok(ActionView::Sz(trim_matches(v, '"')))
        } else if ty == "3"@ {
            match parse_uint(v, 10, u32::MAX as nat) {
                Ok(n) => Ok(ActionView::Binary(le_bytes(n))),
                Err(k) => Err("Failed to parse int for binary conversion: "@ + int_error_text(k)),
            }
        } else if ty == "4"@ {
            match parse_uint(v, 10, u64::MAX as nat) {
                Ok(n) => Ok(ActionView::Dword(n as u64)),
                Err(k) => Err("Failed to parse dword value: "@ + int_error_text(k)),
            }
        } else if ty == "7"@ {
            Ok(ActionView::MultiSz(multi_step(v, seq![], seq![], false)))
        } else if ty == "-NODATA-"@ {
            Ok(ActionView::Delete)
        } else {
            Err("Unknown registry action type: "@ + ty)
        },
    }
}

/// Whether `registry_action_to_value` can write this action without panicking.
pub open spec fn writable_action(a: ActionView) -> bool {
    a is Binary ==> a->Binary_0.len() == 4
}

/// Writes an action as a security template registry value.
pub open spec fn registry_action_to_value_spec(a: ActionView) -> Result<Seq<char>, Seq<char>> {
    match a {
        ActionView::Sz(s) => Ok("1,\""@ + s + "\""@),
        ActionView::Binary(b) => Ok("3,"@ + decimal(from_le(b))),
        ActionView::Dword(n) => Ok("4,"@ + decimal(n as nat)),
        ActionView::MultiSz(values) => Ok(
            "7,"@ + join(values.map_values(|v: Seq<char>| format_multi_value(v)), ","@),
        ),
        ActionView::Delete => Ok("-NODATA-"@),
        _ => Err("Unsupported action type"@),
    }
}

fn lit_eq(s: &[char], lit: &str) -> (r: bool)
    ensures
        r == (s@ == lit@),
{
    let l = chars_of(lit);
    seq_eq(s, l.as_slice())
}

fn msg(prefix: &str, rest: &[char]) -> (r: String)
    ensures
        r@ == prefix@ + rest@,
{
    let p = chars_of(prefix);
    let m = concat(p.as_slice(), rest);
    string_of(m.as_slice())
}

fn le_bytes_exec(n: u32) -> (r: Vec<u8>)
    ensures
        r@ == le_bytes(n as nat),
{
    let mut r: Vec<u8> = Vec::new();
    r.push((n % 256) as u8);
    r.push(((n / 256) % 256) as u8);
    r.push(((n / 65536) % 256) as u8);
    r.push(((n / 16777216) % 256) as u8);
    assert(r@ =~= le_bytes(n as nat));
    r
}

fn multi_values(s: &[char]) -> (r: Vec<String>)
    ensures
        r.deep_view() == multi_step(s@, seq![], seq![], false),
{
    let n = s.len();
    let mut values: Vec<Vec<char>> = Vec::new();
    let mut cur: Vec<char> = Vec::new();
    let mut inq = false;
    let mut i: usize = 0;
    assert(s@.skip(0) =~= s@);
    assert(views(values@) =~= Seq::<Seq<char>>::empty());
    while i < n
        invariant
            i <= n,
            n == s@.len(),
            multi_step(s@, seq![], seq![], false) == multi_step(
                s@.skip(i as int),
                views(values@),
                cur@,
                inq,
            ),
        decreases n - i,
    {
        let ghost t = s@.skip(i as int);
        let ch = s[i];
        assert(t[0] == ch);
        if ch == '"' {
            if inq && i + 1 < n && s[i + 1] == '"' {
                assert(t[1] == s@[i + 1]);
                assert(t.skip(2) =~= s@.skip(i + 2));
                cur.push('"');
                i = i + 2;
            } else {
                assert(t.len() >= 2 ==> t[1] == s@[i + 1]);
                assert(t.drop_first() =~= s@.skip(i + 1));
                inq = !inq;
                i = i + 1;
            }
        } else if ch == ',' && !inq {
            assert(t.drop_first() =~= s@.skip(i + 1));
            let f = finish_exec(&cur);
            let ghost old_values = views(values@);
            values.push(f);
            assert(views(values@) =~= old_values.push(finish_value(cur@)));
            cur = Vec::new();
            assert(cur@ =~= Seq::<char>::empty());
            i = i + 1;
        } else {
            assert(t.drop_first() =~= s@.skip(i + 1));
            cur.push(ch);
            i = i + 1;
        }
    }
    assert(s@.skip(n as int) =~= Seq::<char>::empty());
    let f = finish_exec(&cur);
    let ghost old_values = views(values@);
    values.push(f);
    assert(views(values@) =~= old_values.push(finish_value(cur@)));
    strings_of(&values)
}

fn finish_exec(cur: &Vec<char>) -> (r: Vec<char>)
    ensures
        r@ == finish_value(cur@),
{
    if cur.len() == 1 && cur[0] == ' ' {
        assert(cur@ =~= seq![' ']);
        Vec::new()
    } else {
        assert(cur@ != seq![' ']);
        crate::text::slice_vec(cur.as_slice(), 0, cur.len())
    }
}

/// Reads a security template registry value.
pub fn value_to_registry_action(value: &str) -> (r: Result<Action, String>)
    ensures
        rview(r) == value_to_registry_action_spec(value@),
{
    let vv = chars_of(value);
    let t = trim_chars(vv.as_slice());
    let comma = vec![','];
    proof {
        reveal_strlit(",");
    }
    assert(comma@ =~= ","@);
    let (ty, v): (Vec<char>, Vec<char>) = if lit_eq(t.as_slice(), "-NODATA-") {
        (chars_of("-NODATA-"), Vec::new())
    } else {
        match split_once_chars(t.as_slice(), comma.as_slice()) {
            Some(p) => p,
            None => return Err(msg("Invalid registry action format: ", vv.as_slice())),
        }
    };
    assert(v@ =~= value_to_registry_action_spec_split(value@).1);
    if lit_eq(ty.as_slice(), "1") {
        let s = trim_matches_chars(v.as_slice(), '"');
        Ok(Action::Sz(string_of(s.as_slice())))
    } else if lit_eq(ty.as_slice(), "3") {
        match parse_uint_chars(v.as_slice(), 10, u32::MAX as u128) {
            Ok(n) => Ok(Action::Binary(le_bytes_exec(n as u32))),
            Err(k) => {
                let m = int_error_message(k);
                Err(msg("Failed to parse int for binary conversion: ", chars_of(m.as_str()).as_slice()))
            },
        }
    } else if lit_eq(ty.as_slice(), "4") {
        match parse_uint_chars(v.as_slice(), 10, u64::MAX as u128) {
            Ok(n) => Ok(Action::Dword(n as u64)),
            Err(k) => {
                let m = int_error_message(k);
                Err(msg("Failed to parse dword value: ", chars_of(m.as_str()).as_slice()))
            },
        }
    } else if lit_eq(ty.as_slice(), "7") {
        Ok(Action::MultiSz(multi_values(v.as_slice())))
    } else if lit_eq(ty.as_slice(), "-NODATA-") {
        Ok(Action::Delete)
    } else {
        Err(msg("Unknown registry action type: ", ty.as_slice()))
    }
}

pub open spec fn value_to_registry_action_spec_split(value: Seq<char>) -> (Seq<char>, Seq<char>) {
    let t = trim(value);
    if t == "-NODATA-"@ {
        ("-NODATA-"@, seq![])
    } else {
        match split_once(t, ","@) {
            Some(p) => p,
            None => (seq![], seq![]),
        }
    }
}

fn double_quotes_exec(v: &[char]) -> (r: Vec<char>)
    ensures
        r@ == double_quotes(v@),
{
    let n = v.len();
    let mut r: Vec<char> = Vec::new();
    let mut i: usize = 0;
    assert(v@.skip(0) =~= v@);
    while i < n
        invariant
            i <= n,
            n == v@.len(),
            double_quotes(v@) == r@ + double_quotes(v@.skip(i as int)),
        decreases n - i,
    {
        let ghost t = v@.skip(i as int);
        let ghost old_r = r@;
        assert(t[0] == v@[i as int]);
        assert(t.drop_first() =~= v@.skip(i + 1));
        if v[i] == '"' {
            r.push('"');
            r.push('"');
            assert(r@ =~= old_r + seq!['"', '"']);
        } else {
            r.push(v[i]);
            assert(r@ =~= old_r + seq![v@[i as int]]);
        }
        i = i + 1;
    }
    assert(v@.skip(n as int) =~= Seq::<char>::empty());
    assert(r@ + Seq::<char>::empty() =~= r@);
    r
}

fn has_char_exec(v: &[char], c: char) -> (r: bool)
    ensures
        r == has_char(v@, c),
{
    let mut i: usize = 0;
    while i < v.len()
        invariant
            i <= v@.len(),
            forall|j: int| 0 <= j < i ==> v@[j] != c,
        decreases v@.len() - i,
    {
        if v[i] == c {
            return true;
        }
        i = i + 1;
    }
    false
}

fn format_multi_value_exec(v: &[char]) -> (r: Vec<char>)
    ensures
        r@ == format_multi_value(v@),
{
    if v.len() == 0 {
        let r = vec!['"', ' ', '"'];
        assert(r@ =~= seq!['"', ' ', '"']);
        r
    } else if has_char_exec(v, ',') || has_char_exec(v, '"') {
        let q = vec!['"'];
        let d = double_quotes_exec(v);
        let a = concat(q.as_slice(), d.as_slice());
        concat(a.as_slice(), q.as_slice())
    } else {
        crate::text::slice_vec(v, 0, v.len())
    }
}

/// Writes an action as a security template registry value.
pub fn registry_action_to_value(action: &Action) -> (r: Result<String, String>)
    requires
        writable_action(action@),
    ensures
        rview(r) == registry_action_to_value_spec(action@),
{
    match action {
        Action::Sz(s) => {
            let a = chars_of("1,\"");
            let b = concat(a.as_slice(), chars_of(s.as_str()).as_slice());
            let c = concat(b.as_slice(), chars_of("\"").as_slice());
            Ok(string_of(c.as_slice()))
        },
        Action::Binary(bytes) => {
            let n: u32 = bytes[0] as u32 + 256 * (bytes[1] as u32) + 65536 * (bytes[2] as u32)
                + 16777216 * (bytes[3] as u32);
            let d = fmt_decimal(n as u128);
            Ok(msg("3,", d.as_slice()))
        },
        Action::Dword(num) => {
            let d = fmt_decimal(*num as u128);
            Ok(msg("4,", d.as_slice()))
        },
        Action::MultiSz(values) => {
            let mut parts: Vec<Vec<char>> = Vec::new();
            let mut k: usize = 0;
            while k < values.len()
                invariant
                    k <= values@.len(),
                    parts@.len() == k,
                    forall|j: int| 0 <= j < k ==> #[trigger] parts@[j]@ == format_multi_value(values@[j]@),
                decreases values@.len() - k,
            {
                let v = chars_of(values[k].as_str());
                parts.push(format_multi_value_exec(v.as_slice()));
                k = k + 1;
            }
            let strs = strings_of(&parts);
            let j = join_strs(strs.as_slice(), ",");
            assert(views(parts@) =~= values.deep_view().map_values(|v: Seq<char>| format_multi_value(v)));
            Ok(msg("7,", chars_of(j.as_str()).as_slice()))
        },
        Action::Delete => Ok(crate::text::owned("-NODATA-")),
        _ => Err(crate::text::owned("Unsupported action type")),
    }
}

} // verus!

verus! {

// ------------------------------------------------------------------
// Settings of the security template
// ------------------------------------------------------------------

/// The section a setting belongs to, with its value.
#[derive(Debug)]
pub enum ScopeValue {
    SystemAccess(String),
    PrivilegeRights(Vec<String>),
    RegistryValues(Action),
}

pub enum ScopeValueView {
    SystemAccess(Seq<char>),
    PrivilegeRights(Seq<Seq<char>>),
    RegistryValues(ActionView),
}

impl View for ScopeValue {
    type V = ScopeValueView;

    open spec fn view(&self) -> ScopeValueView {
        match self {
            ScopeValue::SystemAccess(s) => ScopeValueView::SystemAccess(s@),
            ScopeValue::PrivilegeRights(ids) => ScopeValueView::PrivilegeRights(ids.deep_view()),
            ScopeValue::RegistryValues(a) => ScopeValueView::RegistryValues(a@),
        }
    }
}

/// A security template rule: a field of one of the sections.
#[derive(Debug)]
pub struct SecEdit {
    pub field: String,
    pub scope_value: ScopeValue,
}

pub struct SecEditView {
    pub field: Seq<char>,
    pub scope_value: ScopeValueView,
}

impl View for SecEdit {
    type V = SecEditView;

    open spec fn view(&self) -> SecEditView {
        SecEditView { field: self.field@, scope_value: self.scope_value@ }
    }
}

/// How a scope and value are written: the kind, a colon, the value; the
/// privilege rights sorted.
pub open spec fn format_scope_value(sv: ScopeValueView) -> Seq<char> {
    match sv {
        ScopeValueView::SystemAccess(v) => "system_access:"@ + v,
        ScopeValueView::PrivilegeRights(ids) => "privilege_rights:"@ + join(sorted_of(ids), ","@),
        ScopeValueView::RegistryValues(a) => "registry_values:"@ + crate::lgpo::format_action(a),
    }
}

/// The kind and value of a written scope value.
pub open spec fn scope_parts(s: Seq<char>) -> (Seq<char>, Seq<char>) {
    split_once_or_all(trim(s), ":"@)
}

/// Reading a `registry_values` scope whose action does not parse panics.
pub open spec fn scope_value_readable(s: Seq<char>) -> bool {
    scope_parts(s).0 == "registry_values"@ ==> crate::lgpo::parse_action_spec(scope_parts(s).1) is Ok
}

pub open spec fn parse_scope_value_spec(s: Seq<char>) -> Result<ScopeValueView, Seq<char>> {
    let k = scope_parts(s).0;
    let v = scope_parts(s).1;
    if k == "system_access"@ {
        Ok(ScopeValueView::SystemAccess(v))
    } else if k == "privilege_rights"@ {
        Ok(ScopeValueView::PrivilegeRights(split(v, ","@)))
    } else if k == "registry_values"@ {
        Ok(ScopeValueView::RegistryValues(crate::lgpo::parse_action_spec(v)->Ok_0))
    } else {
        Err("Invalid scope line: "@ + trim(s))
    }
}

pub fn format_scope_value_exec(sv: &ScopeValue) -> (r: String)
    ensures
        r@ == format_scope_value(sv@),
{
    match sv {
        ScopeValue::SystemAccess(v) => msg("system_access:", chars_of(v.as_str()).as_slice()),
        ScopeValue::PrivilegeRights(ids) => {
            let sorted = crate::text::sorted_strings(ids);
            let j = join_strs(sorted.as_slice(), ",");
            msg("privilege_rights:", chars_of(j.as_str()).as_slice())
        },
        ScopeValue::RegistryValues(a) => {
            let f = crate::lgpo::format_action_exec(a);
            msg("registry_values:", chars_of(f.as_str()).as_slice())
        },
    }
}

/// Reads a scope and value.
pub fn parse_scope_value(s: &str) -> (r: Result<ScopeValue, String>)
    requires
        scope_value_readable(s@),
    ensures
        rview(r) == parse_scope_value_spec(s@),
{
    let t = trim_chars(chars_of(s).as_slice());
    let colon = chars_of(":");
    let (k, v) = crate::text::split_once_or_all_chars(t.as_slice(), colon.as_slice());
    if lit_eq(k.as_slice(), "system_access") {
        Ok(ScopeValue::SystemAccess(string_of(v.as_slice())))
    } else if lit_eq(k.as_slice(), "privilege_rights") {
        let comma = vec![','];
        proof {
            reveal_strlit(",");
        }
        assert(comma@ =~= ","@);
        let parts = split_chars(v.as_slice(), comma.as_slice());
        Ok(ScopeValue::PrivilegeRights(strings_of(&parts)))
    } else if lit_eq(k.as_slice(), "registry_values") {
        let vs = string_of(v.as_slice());
        match crate::lgpo::parse_action(vs.as_str()) {
            Ok(a) => Ok(ScopeValue::RegistryValues(a)),
            Err(_) => Err(vs),
        }
    } else {
        Err(msg("Invalid scope line: ", t.as_slice()))
    }
}

pub open spec fn secedit_to_raw(s: SecEditView) -> crate::raw::RawView {
    let parts = split_once_or_all(format_scope_value(s.scope_value), ":"@);
    crate::raw::RawView {
        method: "secedit"@,
        target: s.field,
        option1: seq![],
        option2: seq![],
        scope: parts.0,
        action: parts.1,
    }
}

/// The scope value that `from_raw` reads.
pub open spec fn raw_scope_value(r: crate::raw::RawView) -> Seq<char> {
    r.scope + ":"@ + r.action
}

pub open spec fn secedit_from_raw(r: crate::raw::RawView) -> Result<SecEditView, Seq<char>> {
    match parse_scope_value_spec(raw_scope_value(r)) {
        Ok(sv) => Ok(SecEditView { field: r.target, scope_value: sv }),
        Err(e) => Err("Failed to parse SecEdit scope_value: "@ + e),
    }
}

/// The template section of a scope.
pub open spec fn section_of(sv: ScopeValueView) -> Seq<char> {
    match sv {
        ScopeValueView::SystemAccess(_) => "System Access"@,
        ScopeValueView::PrivilegeRights(_) => "Privilege Rights"@,
        ScopeValueView::RegistryValues(_) => "Registry Values"@,
    }
}

/// The text a setting's value takes in the template.
pub open spec fn stored_value(sv: ScopeValueView) -> Result<Seq<char>, Seq<char>> {
    match sv {
        ScopeValueView::SystemAccess(v) => Ok(v),
        ScopeValueView::PrivilegeRights(ids) => Ok(join(ids, ","@)),
        ScopeValueView::RegistryValues(a) => registry_action_to_value_spec(a),
    }
}

pub open spec fn writable_scope_value(sv: ScopeValueView) -> bool {
    sv is RegistryValues ==> writable_action(sv->RegistryValues_0)
}

/// Whether a setting can be written into the template without panicking:
/// a binary registry value must have four bytes.
pub fn writable_scope_value_exec(sv: &ScopeValue) -> (r: bool)
    ensures
        r == writable_scope_value(sv@),
{
    match sv {
        ScopeValue::RegistryValues(Action::Binary(b)) => b.len() == 4,
        _ => true,
    }
}

/// What `set_secedit_field` makes of the template: the value is set, or
/// removed when it is `-NODATA-`; the section must exist.
pub open spec fn set_field_spec(
    config: Map<Seq<char>, Map<Seq<char>, Seq<char>>>,
    s: SecEditView,
) -> Result<Map<Seq<char>, Map<Seq<char>, Seq<char>>>, Seq<char>> {
    let section = section_of(s.scope_value);
    match stored_value(s.scope_value) {
        Err(e) => Err(e),
        Ok(value) => if !config.contains_key(section) {
            Err("Section '"@ + section + "' not found"@)
        } else if value == "-NODATA-"@ {
            Ok(config.insert(section, config[section].remove(s.field)))
        } else {
            Ok(config.insert(section, config[section].insert(s.field, value)))
        },
    }
}

/// The text of a field in the template, if the template has it.
pub open spec fn field_text(
    config: Map<Seq<char>, Map<Seq<char>, Seq<char>>>,
    section: Seq<char>,
    field: Seq<char>,
) -> Option<Seq<char>> {
    if config.contains_key(section) && config[section].contains_key(field) {
        Some(config[section][field])
    } else {
        None
    }
}

/// The error for a field that the template does not hold.
pub open spec fn field_missing_msg(section: Seq<char>, field: Seq<char>) -> Seq<char> {
    "Field '"@ + field + "' not found in section '"@ + section + "'"@
}

/// What `get_secedit` reads: the field's text in the section of the
/// setting's scope, read as that scope's kind of value; an error when the
/// template lacks the section or the field.
pub open spec fn get_field_spec(config: Map<Seq<char>, Map<Seq<char>, Seq<char>>>, s: SecEditView) -> Result<
    SecEditView,
    Seq<char>,
> {
    match field_text(config, section_of(s.scope_value), s.field) {
        None => Err(field_missing_msg(section_of(s.scope_value), s.field)),
        Some(value) => read_field(s, value),
    }
}

/// A field's text read as the kind of value of the setting's scope.
pub open spec fn read_field(s: SecEditView, value: Seq<char>) -> Result<SecEditView, Seq<char>> {
    match s.scope_value {
        ScopeValueView::SystemAccess(_) => Ok(
            SecEditView { field: s.field, scope_value: ScopeValueView::SystemAccess(value) },
        ),
        ScopeValueView::PrivilegeRights(_) => Ok(
            SecEditView {
                field: s.field,
                scope_value: ScopeValueView::PrivilegeRights(split(value, ","@)),
            },
        ),
        ScopeValueView::RegistryValues(_) => match value_to_registry_action_spec(value) {
            Ok(a) => Ok(
                SecEditView { field: s.field, scope_value: ScopeValueView::RegistryValues(a) },
            ),
            Err(e) => Err(e),
        },
    }
}

fn section_name(sv: &ScopeValue) -> (r: String)
    ensures
        r@ == section_of(sv@),
{
    match sv {
        ScopeValue::SystemAccess(_) => crate::text::owned("System Access"),
        ScopeValue::PrivilegeRights(_) => crate::text::owned("Privilege Rights"),
        ScopeValue::RegistryValues(_) => crate::text::owned("Registry Values"),
    }
}

/// Writes a setting into the template.
pub fn set_secedit_field(config: &mut SecEditConfig, secedit: &SecEdit) -> (r: Result<(), String>)
    requires
        writable_scope_value(secedit.scope_value@),
    ensures
        match set_field_spec(old(config).view(), secedit@) {
            Ok(m) => r is Ok && final(config).view() == m,
            Err(e) => r is Err && r->Err_0@ == e && final(config).view() == old(config).view(),
        },
{
    let scope = section_name(&secedit.scope_value);
    let value: String = match &secedit.scope_value {
        ScopeValue::SystemAccess(s) => copy_string(s),
        ScopeValue::PrivilegeRights(ids) => join_strs(ids.as_slice(), ","),
        ScopeValue::RegistryValues(action) => match registry_action_to_value(action) {
            Ok(v) => v,
            Err(e) => return Err(e),
        },
    };
    if config.has_section(scope.as_str()) {
        if str_eq(value.as_str(), "-NODATA-") {
            config.remove(scope.as_str(), secedit.field.as_str());
            Ok(())
        } else {
            config.set(scope.as_str(), secedit.field.as_str(), value.as_str());
            Ok(())
        }
    } else {
        let a = chars_of("Section '");
        let b = concat(a.as_slice(), chars_of(scope.as_str()).as_slice());
        Err(msg_tail(b.as_slice(), "' not found"))
    }
}

fn msg_tail(head: &[char], tail: &str) -> (r: String)
    ensures
        r@ == head@ + tail@,
{
    let t = chars_of(tail);
    let m = concat(head, t.as_slice());
    string_of(m.as_slice())
}

/// Reads a setting's current value from the template.
pub fn get_secedit(config: &SecEditConfig, secedit: &SecEdit) -> (r: Result<SecEdit, String>)
    ensures
        rview(r) == get_field_spec(config.view(), secedit@),
{
    let section = section_name(&secedit.scope_value);
    let value = match config.get(section.as_str(), secedit.field.as_str()) {
        Some(v) => v,
        None => {
            let a = chars_of("Field '");
            let b = concat(a.as_slice(), chars_of(secedit.field.as_str()).as_slice());
            let c = concat(b.as_slice(), chars_of("' not found in section '").as_slice());
            let d = concat(c.as_slice(), chars_of(section.as_str()).as_slice());
            return Err(msg_tail(d.as_slice(), "'"));
        },
    };
    let scope_value = match &secedit.scope_value {
        ScopeValue::SystemAccess(_) => ScopeValue::SystemAccess(value),
        ScopeValue::PrivilegeRights(_) => ScopeValue::PrivilegeRights(split_str_comma(&value)),
        ScopeValue::RegistryValues(_) => match value_to_registry_action(value.as_str()) {
            Ok(a) => ScopeValue::RegistryValues(a),
            Err(e) => return Err(e),
        },
    };
    Ok(SecEdit { field: copy_string(&secedit.field), scope_value })
}

fn split_str_comma(s: &String) -> (r: Vec<String>)
    ensures
        r.deep_view() == split(s@, ","@),
{
    proof {
        reveal_strlit(",");
    }
    crate::text::split_str(s.as_str(), ",")
}

impl SecEdit {
    pub fn to_raw(&self, compare_mode: bool) -> (r: crate::raw::RawMethod)
        ensures
            r@ == secedit_to_raw(self@),
    {
        let sv = format_scope_value_exec(&self.scope_value);
        let colon = chars_of(":");
        let (scope, value) = crate::text::split_once_or_all_chars(
            chars_of(sv.as_str()).as_slice(),
            colon.as_slice(),
        );
        let r = crate::raw::RawMethod {
            method: crate::raw::lit("secedit"),
            target: copy_string(&self.field),
            option1: string_of(Vec::<char>::new().as_slice()),
            option2: string_of(Vec::<char>::new().as_slice()),
            scope: string_of(scope.as_slice()),
            action: string_of(value.as_slice()),
        };
        assert(r@.option1 =~= Seq::<char>::empty());
        assert(r@.option2 =~= Seq::<char>::empty());
        r
    }

    pub fn from_raw(raw: crate::raw::RawMethod) -> (r: Result<SecEdit, String>)
        requires
            scope_value_readable(raw_scope_value(raw@)),
        ensures
            rview(r) == secedit_from_raw(raw@),
    {
        let a = concat(chars_of(raw.scope.as_str()).as_slice(), chars_of(":").as_slice());
        let b = concat(a.as_slice(), chars_of(raw.action.as_str()).as_slice());
        let text = string_of(b.as_slice());
        match parse_scope_value(text.as_str()) {
            Ok(sv) => Ok(SecEdit { field: raw.target, scope_value: sv }),
            Err(e) => Err(msg("Failed to parse SecEdit scope_value: ", chars_of(e.as_str()).as_slice())),
        }
    }

    /// Writes this setting into the template.
    pub fn execute(&self, config: &mut SecEditConfig) -> (r: Result<(), String>)
        requires
            writable_scope_value(self.scope_value@),
        ensures
            match set_field_spec(old(config).view(), self@) {
                Ok(m) => r is Ok && final(config).view() == m,
                Err(e) => r is Err && r->Err_0@ == e && final(config).view() == old(config).view(),
            },
    {
        set_secedit_field(config, self)
    }

    /// This setting's current value in the template.
    pub fn current_value(&self, config: &SecEditConfig) -> (r: Result<crate::raw::RawMethod, String>)
        ensures
            match get_field_spec(config.view(), self@) {
                Ok(s) => r is Ok && r->Ok_0@ == secedit_to_raw(s),
                Err(e) => r is Err && r->Err_0@ == e,
            },
    {
        match get_secedit(config, self) {
            Ok(s) => Ok(s.to_raw(false)),
            Err(e) => Err(e),
        }
    }
}

} // verus!

verus! {

// ------------------------------------------------------------------
// What is written is read back
// ------------------------------------------------------------------

/// The actions that `value_to_registry_action` reads back from what
/// `registry_action_to_value` writes: a string without quotes at its ends,
/// any DWORD, four bytes, `DELETE`, and multi-strings of non-empty strings
/// whose last one does not end in unquoted whitespace.
pub open spec fn invertible_action(a: ActionView) -> bool {
    match a {
        ActionView::Sz(s) => s.len() == 0 || (s[0] != '"' && s.last() != '"'),
        ActionView::Dword(_) => true,
        ActionView::Binary(b) => b.len() == 4,
        ActionView::Delete => true,
        ActionView::MultiSz(v) => v.len() > 0 && (forall|i: int| 0 <= i < v.len() ==> (#[trigger] v[i]) != seq![' '])
            && (v.last().len() == 0 || needs_quotes(v.last()) || !crate::text::is_ws(v.last().last())),
        _ => false,
    }
}

proof fn lemma_trim_start_first(x: Seq<char>)
    ensures
        crate::text::trim_start(x).len() > 0 ==> !crate::text::is_ws(crate::text::trim_start(x)[0]),
    decreases x.len(),
{
    if x.len() > 0 && crate::text::is_ws(x[0]) {
        lemma_trim_start_first(x.drop_first());
    }
}

/// A written string, once read, is finished as itself.
proof fn lemma_finish_read(w: Seq<char>)
    requires
        w != seq![' '],
    ensures
        finish_value(multi_read_form(w)) == w,
{
}

proof fn lemma_multi_plain(w: Seq<char>, rest: Seq<char>, values: Seq<Seq<char>>, cur: Seq<char>)
    requires
        !has_char(w, ','),
        !has_char(w, '"'),
    ensures
        multi_step(w + rest, values, cur, false) == multi_step(rest, values, cur + w, false),
    decreases w.len(),
{
    if w.len() == 0 {
        assert(w + rest =~= rest);
        assert(cur + w =~= cur);
    } else {
        assert((w + rest)[0] == w[0]);
        assert(w[0] != ',' && w[0] != '"') by {
            if w[0] == ',' {
                assert(has_char(w, ','));
            }
            if w[0] == '"' {
                assert(has_char(w, '"'));
            }
        }
        assert((w + rest).drop_first() =~= w.drop_first() + rest);
        assert(!has_char(w.drop_first(), ',')) by {
            if has_char(w.drop_first(), ',') {
                let i = choose|i: int| 0 <= i < w.drop_first().len() && w.drop_first()[i] == ',';
                assert(w[i + 1] == ',');
            }
        }
        assert(!has_char(w.drop_first(), '"')) by {
            if has_char(w.drop_first(), '"') {
                let i = choose|i: int| 0 <= i < w.drop_first().len() && w.drop_first()[i] == '"';
                assert(w[i + 1] == '"');
            }
        }
        lemma_multi_plain(w.drop_first(), rest, values, cur.push(w[0]));
        assert(cur.push(w[0]) + w.drop_first() =~= cur + w);
    }
}

proof fn lemma_multi_quoted_body(u: Seq<char>, rest: Seq<char>, values: Seq<Seq<char>>, cur: Seq<char>)
    ensures
        multi_step(double_quotes(u) + seq!['"'] + rest, values, cur, true) == multi_step(
            seq!['"'] + rest,
            values,
            cur + u,
            true,
        ),
    decreases u.len(),
{
    let s = double_quotes(u) + seq!['"'] + rest;
    if u.len() == 0 {
        assert(s =~= seq!['"'] + rest);
        assert(cur + u =~= cur);
    } else if u[0] == '"' {
        assert(s =~= seq!['"', '"'] + (double_quotes(u.drop_first()) + seq!['"'] + rest));
        assert(s.skip(2) =~= double_quotes(u.drop_first()) + seq!['"'] + rest);
        lemma_multi_quoted_body(u.drop_first(), rest, values, cur.push('"'));
        assert(cur.push('"') + u.drop_first() =~= cur + u);
    } else {
        assert(s =~= seq![u[0]] + (double_quotes(u.drop_first()) + seq!['"'] + rest));
        assert(s.drop_first() =~= double_quotes(u.drop_first()) + seq!['"'] + rest);
        lemma_multi_quoted_body(u.drop_first(), rest, values, cur.push(u[0]));
        assert(cur.push(u[0]) + u.drop_first() =~= cur + u);
    }
}

/// Reading one written string leaves its read form as the current string.
proof fn lemma_multi_one(w: Seq<char>, rest: Seq<char>, values: Seq<Seq<char>>)
    requires
        rest.len() == 0 || rest[0] == ',',
    ensures
        multi_step(format_multi_value(w) + rest, values, seq![], false) == multi_step(
            rest,
            values,
            multi_read_form(w),
            false,
        ),
{
    if w.len() == 0 {
        let s = seq!['"', ' ', '"'] + rest;
        assert(format_multi_value(w) + rest =~= s);
        assert(s.drop_first() =~= seq![' ', '"'] + rest);
        let s1 = seq![' ', '"'] + rest;
        assert(s1.drop_first() =~= seq!['"'] + rest);
        assert(Seq::<char>::empty().push(' ') =~= seq![' ']);
        let q = seq!['"'] + rest;
        assert(q.drop_first() =~= rest);
        assert(q.len() >= 2 ==> q[1] == rest[0]);
        assert(s[0] == '"');
        assert(multi_step(s, values, seq![], false) == multi_step(s1, values, seq![], true));
        assert(s1[0] == ' ');
        assert(multi_step(s1, values, seq![], true) == multi_step(q, values, seq![' '], true));
        assert(q[0] == '"');
        assert(multi_step(q, values, seq![' '], true) == multi_step(rest, values, seq![' '], false));
    } else if needs_quotes(w) {
        let s = seq!['"'] + double_quotes(w) + seq!['"'] + rest;
        assert(format_multi_value(w) + rest =~= s);
        assert(s.drop_first() =~= double_quotes(w) + seq!['"'] + rest);
        assert(s.len() >= 2 ==> s[1] == (double_quotes(w) + seq!['"'] + rest)[0]);
        lemma_multi_quoted_body(w, rest, values, seq![]);
        assert(Seq::<char>::empty() + w =~= w);
        let q = seq!['"'] + rest;
        assert(q.drop_first() =~= rest);
        assert(q.len() >= 2 ==> q[1] == rest[0]);
    } else {
        lemma_multi_plain(w, rest, values, seq![]);
        assert(Seq::<char>::empty() + w =~= w);
    }
}

proof fn lemma_multi_join(vs: Seq<Seq<char>>, values: Seq<Seq<char>>)
    requires
        vs.len() > 0,
        forall|i: int| 0 <= i < vs.len() ==> (#[trigger] vs[i]) != seq![' '],
    ensures
        multi_step(join(vs.map_values(|v: Seq<char>| format_multi_value(v)), ","@), values, seq![], false)
            == values + vs,
    decreases vs.len(),
{
    reveal_strlit(",");
    let fs = vs.map_values(|v: Seq<char>| format_multi_value(v));
    let w = vs[0];
    assert(vs[0] != seq![' ']);
    if vs.len() == 1 {
        assert(join(fs, ","@) == fs[0]);
        lemma_multi_one(w, Seq::<char>::empty(), values);
        assert(format_multi_value(w) + Seq::<char>::empty() =~= format_multi_value(w));
        lemma_finish_read(w);
        assert(values.push(w) =~= values + vs);
    } else {
        let rest = vs.drop_first();
        let frest = rest.map_values(|v: Seq<char>| format_multi_value(v));
        assert(fs =~= seq![format_multi_value(w)] + frest);
        crate::text::lemma_join_front(format_multi_value(w), frest, ","@);
        let tail = ","@ + join(frest, ","@);
        assert(format_multi_value(w) + ","@ + join(frest, ","@) =~= format_multi_value(w) + tail);
        assert(tail[0] == ',');
        lemma_multi_one(w, tail, values);
        assert(tail.drop_first() =~= join(frest, ","@));
        lemma_finish_read(w);
        assert forall|i: int| 0 <= i < rest.len() implies (#[trigger] rest[i]) != seq![' '] by {
            assert(rest[i] == vs[i + 1]);
        }
        lemma_multi_join(rest, values.push(w));
        assert(values.push(w) + rest =~= values + vs);
    }
}

proof fn lemma_le_bytes(b: Seq<u8>)
    requires
        b.len() == 4,
    ensures
        from_le(b) <= u32::MAX,
        le_bytes(from_le(b)) == b,
{
    let n = from_le(b);
    let b0 = b[0] as int;
    let b1 = b[1] as int;
    let b2 = b[2] as int;
    let b3 = b[3] as int;
    assert(n == b0 + 256 * b1 + 65536 * b2 + 16777216 * b3);
    assert(n % 256 == b0) by (nonlinear_arith)
        requires
            n == b0 + 256 * b1 + 65536 * b2 + 16777216 * b3,
            0 <= b0 < 256,
            0 <= b1 < 256,
            0 <= b2 < 256,
            0 <= b3 < 256,
    ;
    assert((n / 256) % 256 == b1) by (nonlinear_arith)
        requires
            n == b0 + 256 * b1 + 65536 * b2 + 16777216 * b3,
            0 <= b0 < 256,
            0 <= b1 < 256,
            0 <= b2 < 256,
            0 <= b3 < 256,
    ;
    assert((n / 65536) % 256 == b2) by (nonlinear_arith)
        requires
            n == b0 + 256 * b1 + 65536 * b2 + 16777216 * b3,
            0 <= b0 < 256,
            0 <= b1 < 256,
            0 <= b2 < 256,
            0 <= b3 < 256,
    ;
    assert((n / 16777216) % 256 == b3) by (nonlinear_arith)
        requires
            n == b0 + 256 * b1 + 65536 * b2 + 16777216 * b3,
            0 <= b0 < 256,
            0 <= b1 < 256,
            0 <= b2 < 256,
            0 <= b3 < 256,
    ;
    assert(le_bytes(n) =~= b);
}

proof fn lemma_type_value(ty: char, rest: Seq<char>)
    requires
        !crate::text::is_ws(ty),
        ty != ',',
        ty != '-',
        rest.len() > 0,
        !crate::text::is_ws(rest.last()),
    ensures
        trim(seq![ty, ','] + rest) == seq![ty, ','] + rest,
        seq![ty, ','] + rest != "-NODATA-"@,
        split_once(seq![ty, ','] + rest, ","@) == Some((seq![ty], rest)),
{
    reveal_strlit(",");
    reveal_strlit("-NODATA-");
    let s = seq![ty, ','] + rest;
    crate::text::lemma_trim_keeps(s);
    assert(s[0] == ty);
    assert("-NODATA-"@[0] == '-');
    assert(s =~= seq![ty] + seq![','] + rest);
    assert(","@ =~= seq![',']);
    crate::text::lemma_split_once_at(seq![ty], ',', rest);
}

proof fn lemma_sz_roundtrip(s: Seq<char>)
    requires
        invertible_action(ActionView::Sz(s)),
    ensures
        value_to_registry_action_spec("1,\""@ + s + "\""@) == Ok::<ActionView, Seq<char>>(ActionView::Sz(s)),
{
    reveal_strlit("1");
    reveal_strlit("1,\"");
    reveal_strlit("\"");
    reveal_strlit("-NODATA-");
    let q = seq!['"'];
    let w = "1,\""@ + s + "\""@;
    assert(w =~= seq!['1', ','] + (q + s + q));
    lemma_type_value('1', q + s + q);
    assert(trim_start_char(q + s + q, '"') == trim_start_char(s + q, '"')) by {
        assert((q + s + q).drop_first() =~= s + q);
    }
    if s.len() == 0 {
        assert(s + q =~= q);
        assert(q.drop_first() =~= Seq::<char>::empty());
        assert(trim_start_char(q, '"') == trim_start_char(Seq::<char>::empty(), '"'));
        assert(trim_start_char(q + s + q, '"') =~= Seq::<char>::empty());
        assert(trim_end_char(Seq::<char>::empty(), '"') =~= Seq::<char>::empty());
        assert(trim_matches(q + s + q, '"') =~= s);
    } else {
        assert((s + q)[0] == s[0]);
        assert(trim_start_char(s + q, '"') == s + q);
        assert((s + q).last() == '"');
        assert((s + q).drop_last() =~= s);
        assert(trim_end_char(s + q, '"') == trim_end_char(s, '"'));
        assert(trim_end_char(s, '"') == s);
    }
    assert("1"@ =~= seq!['1']);
}

proof fn lemma_type_names()
    ensures
        "1"@ == seq!['1'],
        "3"@ == seq!['3'],
        "4"@ == seq!['4'],
        "7"@ == seq!['7'],
        "1"@ != "3"@,
        "1"@ != "4"@,
        "1"@ != "7"@,
        "3"@ != "4"@,
        "3"@ != "7"@,
        "4"@ != "7"@,
{
    reveal_strlit("1");
    reveal_strlit("3");
    reveal_strlit("4");
    reveal_strlit("7");
    assert("1"@ =~= seq!['1']);
    assert("3"@ =~= seq!['3']);
    assert("4"@ =~= seq!['4']);
    assert("7"@ =~= seq!['7']);
    assert("1"@[0] != "3"@[0]);
    assert("1"@[0] != "4"@[0]);
    assert("1"@[0] != "7"@[0]);
    assert("3"@[0] != "4"@[0]);
    assert("3"@[0] != "7"@[0]);
    assert("4"@[0] != "7"@[0]);
}

proof fn lemma_delete_roundtrip()
    ensures
        value_to_registry_action_spec("-NODATA-"@) == Ok::<ActionView, Seq<char>>(ActionView::Delete),
{
    reveal_strlit("-NODATA-");
    let w = "-NODATA-"@;
    assert(w =~= seq!['-', 'N', 'O', 'D', 'A', 'T', 'A', '-']);
    crate::text::lemma_trim_keeps(w);
    lemma_type_names();
    assert(w.len() == 8);
}

proof fn lemma_dword_roundtrip(n: u64)
    ensures
        value_to_registry_action_spec("4,"@ + decimal(n as nat)) == Ok::<ActionView, Seq<char>>(ActionView::Dword(n)),
{
    reveal_strlit("4");
    reveal_strlit("4,");
    crate::lgpo::lemma_number_facts(n as nat, u64::MAX as nat);
    let w = "4,"@ + decimal(n as nat);
    assert(w =~= seq!['4', ','] + decimal(n as nat));
    lemma_type_value('4', decimal(n as nat));
    crate::num::lemma_decimal_roundtrip(n as nat, u64::MAX as nat);
    assert("4"@ =~= seq!['4']);
    lemma_type_names();
}

proof fn lemma_binary_roundtrip(b: Seq<u8>)
    requires
        b.len() == 4,
    ensures
        value_to_registry_action_spec("3,"@ + decimal(from_le(b))) == Ok::<ActionView, Seq<char>>(ActionView::Binary(b)),
{
    reveal_strlit("3");
    reveal_strlit("3,");
    lemma_le_bytes(b);
    let n = from_le(b);
    crate::lgpo::lemma_number_facts(n, u32::MAX as nat);
    let w = "3,"@ + decimal(n);
    assert(w =~= seq!['3', ','] + decimal(n));
    lemma_type_value('3', decimal(n));
    crate::num::lemma_decimal_roundtrip(n, u32::MAX as nat);
    assert("3"@ =~= seq!['3']);
    lemma_type_names();
}

proof fn lemma_multi_roundtrip(v: Seq<Seq<char>>)
    requires
        invertible_action(ActionView::MultiSz(v)),
    ensures
        value_to_registry_action_spec("7,"@ + join(v.map_values(|x: Seq<char>| format_multi_value(x)), ","@))
            == Ok::<ActionView, Seq<char>>(ActionView::MultiSz(v)),
{
    reveal_strlit("7");
    reveal_strlit("7,");
    let fs = v.map_values(|x: Seq<char>| format_multi_value(x));
    let j = join(fs, ","@);
    let last = v.last();
    assert(fs.last() == format_multi_value(last));
    assert(format_multi_value(last).len() > 0 && !crate::text::is_ws(format_multi_value(last).last())) by {
        if needs_quotes(last) {
            assert((seq!['"'] + double_quotes(last) + seq!['"']).last() == '"');
        }
    }
    crate::lgpo::lemma_join_last_pub(fs, ","@);
    let w = "7,"@ + j;
    assert(w =~= seq!['7', ','] + j);
    lemma_type_value('7', j);
    lemma_multi_join(v, seq![]);
    assert(Seq::<Seq<char>>::empty() + v =~= v);
    assert("7"@ =~= seq!['7']);
    lemma_type_names();
}

/// The text of a scope value whose value part is `v`, under the name `k`.
proof fn lemma_scope_line(k: Seq<char>, v: Seq<char>)
    requires
        k.len() > 0,
        forall|i: int| 0 <= i < k.len() ==> k[i] != ':' && !crate::text::is_ws(#[trigger] k[i]),
        !crate::text::is_ws((k + ":"@ + v).last()),
    ensures
        split_once_or_all(k + ":"@ + v, ":"@) == (k, v),
        scope_parts(k + ":"@ + v) == (k, v),
{
    reveal_strlit(":");
    assert(":"@ =~= seq![':']);
    crate::text::lemma_split_once_at(k, ':', v);
    let line = k + ":"@ + v;
    assert(line[0] == k[0]);
    crate::text::lemma_trim_keeps(line);
}

/// A setting read from its raw method is the setting written, where the
/// text of its scope value does not end in whitespace, its rights (if any)
/// are in ascending order and hold no comma, and its registry action (if
/// any) reads back from its text.
pub proof fn lemma_secedit_raw_roundtrip(s: SecEditView)
    requires
        !crate::text::is_ws(format_scope_value(s.scope_value).last()),
        s.scope_value matches ScopeValueView::PrivilegeRights(ids) ==> ids.len() > 0 && crate::text::sorted_strs(ids)
            && forall|i: int, j: int| 0 <= i < ids.len() && 0 <= j < ids[i].len() ==> ids[i][j] != ',',
        s.scope_value matches ScopeValueView::RegistryValues(a) ==> crate::lgpo::action_stable(a),
    ensures
        scope_value_readable(raw_scope_value(secedit_to_raw(s))),
        secedit_from_raw(secedit_to_raw(s)) == Ok::<SecEditView, Seq<char>>(s),
{
    reveal_strlit(":");
    reveal_strlit("system_access:");
    reveal_strlit("privilege_rights:");
    reveal_strlit("registry_values:");
    reveal_strlit("system_access");
    reveal_strlit("privilege_rights");
    reveal_strlit("registry_values");
    let sa = "system_access"@;
    let pr = "privilege_rights"@;
    let rv = "registry_values"@;
    assert(sa.len() == 13 && pr.len() == 16 && rv.len() == 15);
    match s.scope_value {
        ScopeValueView::SystemAccess(v) => {
            assert(format_scope_value(s.scope_value) =~= sa + ":"@ + v);
            lemma_scope_line(sa, v);
        },
        ScopeValueView::PrivilegeRights(ids) => {
            let sorted = sorted_of(ids);
            assert(ids.to_multiset() == ids.to_multiset() && crate::text::sorted_strs(ids));
            crate::text::lemma_sorted_unique(sorted, ids);
            let v = join(sorted, ","@);
            assert(format_scope_value(s.scope_value) =~= pr + ":"@ + v);
            lemma_scope_line(pr, v);
            reveal_strlit(",");
            assert(","@ =~= seq![',']);
            crate::text::lemma_split_join_single(ids, ',');
        },
        ScopeValueView::RegistryValues(a) => {
            let v = crate::lgpo::format_action(a);
            assert(format_scope_value(s.scope_value) =~= rv + ":"@ + v);
            lemma_scope_line(rv, v);
            crate::lgpo::lemma_action_roundtrip(a);
        },
    }
}

/// What `registry_action_to_value` writes, `value_to_registry_action`
/// reads back as the same action.
pub proof fn lemma_registry_value_roundtrip(a: ActionView)
    requires
        invertible_action(a),
    ensures
        registry_action_to_value_spec(a) is Ok,
        value_to_registry_action_spec(registry_action_to_value_spec(a)->Ok_0) == Ok::<
            ActionView,
            Seq<char>,
        >(a),
{
    match a {
        ActionView::Sz(s) => lemma_sz_roundtrip(s),
        ActionView::Dword(n) => lemma_dword_roundtrip(n),
        ActionView::Binary(b) => lemma_binary_roundtrip(b),
        ActionView::Delete => lemma_delete_roundtrip(),
        ActionView::MultiSz(v) => lemma_multi_roundtrip(v),
        _ => {},
    }
}

/// The settings whose value reads back as it was written: any system
/// access value; a non-empty list of accounts none of which holds a comma;
/// a registry action of `invertible_action`.
pub open spec fn rereadable(sv: ScopeValueView) -> bool {
    match sv {
        ScopeValueView::SystemAccess(_) => true,
        ScopeValueView::PrivilegeRights(ids) => ids.len() > 0 && forall|i: int, j: int|
            0 <= i < ids.len() && 0 <= j < ids[i].len() ==> ids[i][j] != ',',
        ScopeValueView::RegistryValues(a) => invertible_action(a),
    }
}

/// After a setting is written into the template, reading it gives the
/// same setting back; a setting written as `-NODATA-` is removed, and
/// reading it finds no such field.
pub proof fn lemma_set_then_get(config: Map<Seq<char>, Map<Seq<char>, Seq<char>>>, s: SecEditView)
    requires
        set_field_spec(config, s) is Ok,
        rereadable(s.scope_value),
    ensures
        stored_value(s.scope_value)->Ok_0 != "-NODATA-"@ ==> get_field_spec(
            set_field_spec(config, s)->Ok_0,
            s,
        ) == Ok::<SecEditView, Seq<char>>(s),
        stored_value(s.scope_value)->Ok_0 == "-NODATA-"@ ==> get_field_spec(
            set_field_spec(config, s)->Ok_0,
            s,
        ) == Err::<SecEditView, Seq<char>>(field_missing_msg(section_of(s.scope_value), s.field)),
{
    let section = section_of(s.scope_value);
    let value = stored_value(s.scope_value)->Ok_0;
    let m = set_field_spec(config, s)->Ok_0;
    if value == "-NODATA-"@ {
        assert(field_text(m, section, s.field) is None);
        return;
    }
    assert(field_text(m, section, s.field) == Some(value));
    match s.scope_value {
        ScopeValueView::SystemAccess(v) => {},
        ScopeValueView::PrivilegeRights(ids) => {
            reveal_strlit(",");
            assert(","@ =~= seq![',']);
            crate::text::lemma_split_join_single(ids, ',');
        },
        ScopeValueView::RegistryValues(a) => {
            lemma_registry_value_roundtrip(a);
        },
    }
}

/// The canonical texts of registry values: those that
/// `registry_action_to_value` writes for an action that reads back. They
/// are `-NODATA-`; `4,` and a `u64` in decimal; `3,` and a `u32` in
/// decimal; `1,"s"` with `s` neither starting nor ending in a quote; and
/// `7,` followed by the written lines. `lemma_plain_values_canonical` shows
/// the first four forms canonical.
pub open spec fn canonical_value(v: Seq<char>) -> bool {
    exists|a: ActionView|
        invertible_action(a) && #[trigger] registry_action_to_value_spec(a) == Ok::<Seq<char>, Seq<char>>(v)
}

/// Reading a canonical registry value and writing the action read gives
/// the same text back.
pub proof fn lemma_value_text_roundtrip(v: Seq<char>)
    requires
        canonical_value(v),
    ensures
        value_to_registry_action_spec(v) is Ok,
        registry_action_to_value_spec(value_to_registry_action_spec(v)->Ok_0) == Ok::<Seq<char>, Seq<char>>(v),
{
    let a = choose|a: ActionView|
        invertible_action(a) && #[trigger] registry_action_to_value_spec(a) == Ok::<Seq<char>, Seq<char>>(v);
    lemma_registry_value_roundtrip(a);
}

proof fn lemma_from_le_bytes(m: u32)
    ensures
        le_bytes(m as nat).len() == 4,
        from_le(le_bytes(m as nat)) == m,
{
    let b0 = m % 256;
    let b1 = (m / 256) % 256;
    let b2 = (m / 65536) % 256;
    let b3 = (m / 16777216) % 256;
    assert(b0 + 256 * b1 + 65536 * b2 + 16777216 * b3 == m) by (bit_vector)
        requires
            b0 == m % 256,
            b1 == (m / 256) % 256,
            b2 == (m / 65536) % 256,
            b3 == (m / 16777216) % 256,
    ;
    let b = le_bytes(m as nat);
    assert(b[0] == b0 && b[1] == b1 && b[2] == b2 && b[3] == b3);
}

/// The plain texts are canonical: `-NODATA-`, `4,` and a `u64` in
/// decimal, `3,` and a `u32` in decimal, and a string in quotes that does
/// not start or end with a quote.
pub proof fn lemma_plain_values_canonical(n: u64, m: u32, s: Seq<char>)
    ensures
        canonical_value("-NODATA-"@),
        canonical_value("4,"@ + decimal(n as nat)),
        canonical_value("3,"@ + decimal(m as nat)),
        s.len() == 0 || (s[0] != '"' && s.last() != '"') ==> canonical_value("1,\""@ + s + "\""@),
{
    assert(invertible_action(ActionView::Delete));
    assert(registry_action_to_value_spec(ActionView::Delete) == Ok::<Seq<char>, Seq<char>>("-NODATA-"@));
    assert(invertible_action(ActionView::Dword(n)));
    assert(registry_action_to_value_spec(ActionView::Dword(n)) == Ok::<Seq<char>, Seq<char>>(
        "4,"@ + decimal(n as nat),
    ));
    lemma_from_le_bytes(m);
    let b = ActionView::Binary(le_bytes(m as nat));
    assert(invertible_action(b));
    assert(registry_action_to_value_spec(b) == Ok::<Seq<char>, Seq<char>>("3,"@ + decimal(m as nat)));
    if s.len() == 0 || (s[0] != '"' && s.last() != '"') {
        assert(invertible_action(ActionView::Sz(s)));
        assert(registry_action_to_value_spec(ActionView::Sz(s)) == Ok::<Seq<char>, Seq<char>>(
            "1,\""@ + s + "\""@,
        ));
    }
}

/// Writing a setting leaves what every other field of the template reads.
pub proof fn lemma_set_keeps_others(
    config: Map<Seq<char>, Map<Seq<char>, Seq<char>>>,
    s: SecEditView,
    other: SecEditView,
)
    requires
        set_field_spec(config, s) is Ok,
        section_of(other.scope_value) != section_of(s.scope_value) || other.field != s.field,
    ensures
        get_field_spec(set_field_spec(config, s)->Ok_0, other) == get_field_spec(config, other),
{
    let m = set_field_spec(config, s)->Ok_0;
    assert(field_text(m, section_of(other.scope_value), other.field) == field_text(
        config,
        section_of(other.scope_value),
        other.field,
    ));
}

/// Whether reading a scope value does not panic.
pub fn scope_value_readable_exec(s: &str) -> (r: bool)
    ensures
        r == scope_value_readable(s@),
{
    let t = trim_chars(chars_of(s).as_slice());
    let colon = chars_of(":");
    let (k, v) = crate::text::split_once_or_all_chars(t.as_slice(), colon.as_slice());
    if lit_eq(k.as_slice(), "registry_values") {
        let vs = string_of(v.as_slice());
        crate::lgpo::parse_action(vs.as_str()).is_ok()
    } else {
        true
    }
}

} // verus!
