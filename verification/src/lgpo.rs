//! The LGPO text format: policy entries of four lines each
//! (configuration, registry key, value name, action).
use vstd::prelude::*;

use crate::num::{
    decimal, fmt_decimal, fmt_hex2, hex2, int_error_message, int_error_text, parse_uint, parse_digits,
    parse_uint_chars, IntErrorKind,
};
use crate::text::{
    ascii_upper, ascii_upper_chars, chars_of, concat, is_ws, join, join_strs, matches_at, rview,
    seq_eq, split, split_chars, split_once_or_all, split_once_or_all_chars, starts_with,
    str_eq, string_of, strings_of, strip_prefix, strip_prefix_chars, trim, trim_chars, trim_end,
    views, lemma_trim_concat, lemma_trim_first, lemma_trim_keeps, lemma_split_once_at, split_once,
    lemma_find_single_absent, lemma_split_join_single, lemma_trim_end_keeps, lemma_join_front, lemma_split_join_sep,
};

verus! {

/// Whether a setting is for Computer Configuration, User Configuration,
/// or an MLGPO User Configuration.
#[derive(Debug)]
pub enum Configuration {
    /// Computer Configuration
    Computer,
    /// System-wide User Configuration
    User,
    /// MLGPO User Configuration for Administrators
    UserAdministrators,
    /// MLGPO User Configuration for Non-Administrators
    UserNonAdministrators,
    /// MLGPO User Configuration for the named local account
    UserNamed(String),
}

pub enum ConfigurationView {
    Computer,
    User,
    UserAdministrators,
    UserNonAdministrators,
    UserNamed(Seq<char>),
}

impl View for Configuration {
    type V = ConfigurationView;

    open spec fn view(&self) -> ConfigurationView {
        match self {
            Configuration::Computer => ConfigurationView::Computer,
            Configuration::User => ConfigurationView::User,
            Configuration::UserAdministrators => ConfigurationView::UserAdministrators,
            Configuration::UserNonAdministrators => ConfigurationView::UserNonAdministrators,
            Configuration::UserNamed(n) => ConfigurationView::UserNamed(n@),
        }
    }
}

/// The action to take for a setting.
#[derive(Debug)]
pub enum Action {
    /// Deletes the value (reverting a policy to "not configured").
    Delete,
    /// A _REG_DWORD_ value, e.g. `DWORD:1` or `DWORD:0x1000`.
    Dword(u64),
    /// A _REG_QWORD_ value, e.g. `QWORD:1` or `QWORD:0x1000`.
    Qword(u128),
    /// A _REG_SZ_ value, e.g. `SZ:Authorized users only!`.
    Sz(String),
    /// A _REG_EXPAND_SZ_ value, e.g. `EXSZ:%USERPROFILE%\Desktop`.
    ExSz(String),
    /// A multi-string value, the strings separated by the sequence `\0`.
    MultiSz(Vec<String>),
    /// A binary value as comma-separated two-digit hex values.
    Binary(Vec<u8>),
    /// Creates the key without any value (`*` on the value name line).
    CreateKey,
    /// Deletes all values of the key (`*` on the value name line).
    DeleteAllValues,
    /// Deletes the subkeys listed, `;`-separated, on the value name line.
    DeleteKeys(Vec<String>),
    /// Removes the key and every command about it from the policy.
    Clear,
}

pub enum ActionView {
    Delete,
    Dword(u64),
    Qword(u128),
    Sz(Seq<char>),
    ExSz(Seq<char>),
    MultiSz(Seq<Seq<char>>),
    Binary(Seq<u8>),
    CreateKey,
    DeleteAllValues,
    DeleteKeys(Seq<Seq<char>>),
    Clear,
}

impl View for Action {
    type V = ActionView;

    open spec fn view(&self) -> ActionView {
        match self {
            Action::Delete => ActionView::Delete,
            Action::Dword(n) => ActionView::Dword(*n),
            Action::Qword(n) => ActionView::Qword(*n),
            Action::Sz(s) => ActionView::Sz(s@),
            Action::ExSz(s) => ActionView::ExSz(s@),
            Action::MultiSz(v) => ActionView::MultiSz(v.deep_view()),
            Action::Binary(b) => ActionView::Binary(b@),
            Action::CreateKey => ActionView::CreateKey,
            Action::DeleteAllValues => ActionView::DeleteAllValues,
            Action::DeleteKeys(k) => ActionView::DeleteKeys(k.deep_view()),
            Action::Clear => ActionView::Clear,
        }
    }
}

/// One policy setting.
#[derive(Debug)]
pub struct LocalGroupPolicyObject {
    pub configuration: Configuration,
    pub registry_key: String,
    pub value_name: String,
    pub action: Action,
}

pub struct LgpoView {
    pub configuration: ConfigurationView,
    pub registry_key: Seq<char>,
    pub value_name: Seq<char>,
    pub action: ActionView,
}

impl View for LocalGroupPolicyObject {
    type V = LgpoView;

    open spec fn view(&self) -> LgpoView {
        LgpoView {
            configuration: self.configuration@,
            registry_key: self.registry_key@,
            value_name: self.value_name@,
            action: self.action@,
        }
    }
}

impl DeepView for LocalGroupPolicyObject {
    type V = LgpoView;

    open spec fn deep_view(&self) -> LgpoView {
        self@
    }
}

// ------------------------------------------------------------------
// Copies and comparisons
// ------------------------------------------------------------------

pub fn copy_string(s: &String) -> (r: String)
    ensures
        r@ == s@,
{
    s.clone()
}

pub fn copy_strings(v: &Vec<String>) -> (r: Vec<String>)
    ensures
        r.deep_view() == v.deep_view(),
{
    let mut r: Vec<String> = Vec::new();
    let mut k: usize = 0;
    while k < v.len()
        invariant
            k <= v@.len(),
            r@.len() == k,
            forall|j: int| 0 <= j < k ==> #[trigger] r@[j]@ == v@[j]@,
        decreases v@.len() - k,
    {
        r.push(copy_string(&v[k]));
        k = k + 1;
    }
    assert(r.deep_view() =~= v.deep_view());
    r
}

pub fn strings_eq(a: &Vec<String>, b: &Vec<String>) -> (r: bool)
    ensures
        r == (a.deep_view() == b.deep_view()),
{
    if a.len() != b.len() {
        assert(a.deep_view().len() != b.deep_view().len());
        return false;
    }
    let mut k: usize = 0;
    while k < a.len()
        invariant
            k <= a@.len(),
            a@.len() == b@.len(),
            forall|j: int| 0 <= j < k ==> #[trigger] a@[j]@ == b@[j]@,
        decreases a@.len() - k,
    {
        if !str_eq(a[k].as_str(), b[k].as_str()) {
            assert(a.deep_view()[k as int] != b.deep_view()[k as int]);
            return false;
        }
        k = k + 1;
    }
    assert(a.deep_view() =~= b.deep_view());
    true
}

pub fn bytes_eq(a: &Vec<u8>, b: &Vec<u8>) -> (r: bool)
    ensures
        r == (a@ == b@),
{
    if a.len() != b.len() {
        return false;
    }
    let mut k: usize = 0;
    while k < a.len()
        invariant
            k <= a@.len(),
            a@.len() == b@.len(),
            forall|j: int| 0 <= j < k ==> a@[j] == b@[j],
        decreases a@.len() - k,
    {
        if a[k] != b[k] {
            return false;
        }
        k = k + 1;
    }
    assert(a@ =~= b@);
    true
}

impl Configuration {
    pub fn copy(&self) -> (r: Configuration)
        ensures
            r@ == self@,
    {
        match self {
            Configuration::Computer => Configuration::Computer,
            Configuration::User => Configuration::User,
            Configuration::UserAdministrators => Configuration::UserAdministrators,
            Configuration::UserNonAdministrators => Configuration::UserNonAdministrators,
            Configuration::UserNamed(n) => Configuration::UserNamed(copy_string(n)),
        }
    }

    pub fn same(&self, other: &Configuration) -> (r: bool)
        ensures
            r == (self@ == other@),
    {
        match (self, other) {
            (Configuration::Computer, Configuration::Computer) => true,
            (Configuration::User, Configuration::User) => true,
            (Configuration::UserAdministrators, Configuration::UserAdministrators) => true,
            (Configuration::UserNonAdministrators, Configuration::UserNonAdministrators) => true,
            (Configuration::UserNamed(a), Configuration::UserNamed(b)) => str_eq(
                a.as_str(),
                b.as_str(),
            ),
            _ => false,
        }
    }
}

impl Action {
    pub fn copy(&self) -> (r: Action)
        ensures
            r@ == self@,
    {
        match self {
            Action::Delete => Action::Delete,
            Action::Dword(n) => Action::Dword(*n),
            Action::Qword(n) => Action::Qword(*n),
            Action::Sz(s) => Action::Sz(copy_string(s)),
            Action::ExSz(s) => Action::ExSz(copy_string(s)),
            Action::MultiSz(v) => Action::MultiSz(copy_strings(v)),
            Action::Binary(b) => {
                let mut r: Vec<u8> = Vec::new();
                let mut k: usize = 0;
                while k < b.len()
                    invariant
                        k <= b@.len(),
                        r@ == b@.take(k as int),
                    decreases b@.len() - k,
                {
                    r.push(b[k]);
                    assert(r@ =~= b@.take(k + 1));
                    k = k + 1;
                }
                assert(b@.take(b@.len() as int) =~= b@);
                Action::Binary(r)
            },
            Action::CreateKey => Action::CreateKey,
            Action::DeleteAllValues => Action::DeleteAllValues,
            Action::DeleteKeys(v) => Action::DeleteKeys(copy_strings(v)),
            Action::Clear => Action::Clear,
        }
    }

    pub fn same(&self, other: &Action) -> (r: bool)
        ensures
            r == (self@ == other@),
    {
        match (self, other) {
            (Action::Delete, Action::Delete) => true,
            (Action::Dword(a), Action::Dword(b)) => *a == *b,
            (Action::Qword(a), Action::Qword(b)) => *a == *b,
            (Action::Sz(a), Action::Sz(b)) => str_eq(a.as_str(), b.as_str()),
            (Action::ExSz(a), Action::ExSz(b)) => str_eq(a.as_str(), b.as_str()),
            (Action::MultiSz(a), Action::MultiSz(b)) => strings_eq(a, b),
            (Action::Binary(a), Action::Binary(b)) => bytes_eq(a, b),
            (Action::CreateKey, Action::CreateKey) => true,
            (Action::DeleteAllValues, Action::DeleteAllValues) => true,
            (Action::DeleteKeys(a), Action::DeleteKeys(b)) => strings_eq(a, b),
            (Action::Clear, Action::Clear) => true,
            _ => false,
        }
    }
}

impl LocalGroupPolicyObject {
    pub fn copy(&self) -> (r: LocalGroupPolicyObject)
        ensures
            r@ == self@,
    {
        LocalGroupPolicyObject {
            configuration: self.configuration.copy(),
            registry_key: copy_string(&self.registry_key),
            value_name: copy_string(&self.value_name),
            action: self.action.copy(),
        }
    }

    pub fn same(&self, other: &LocalGroupPolicyObject) -> (r: bool)
        ensures
            r == (self@ == other@),
    {
        self.configuration.same(&other.configuration) && str_eq(
            self.registry_key.as_str(),
            other.registry_key.as_str(),
        ) && str_eq(self.value_name.as_str(), other.value_name.as_str()) && self.action.same(
            &other.action,
        )
    }
}

} // verus!

verus! {

// ------------------------------------------------------------------
// Configuration lines
// ------------------------------------------------------------------

/// How a configuration is written on its line.
pub open spec fn format_configuration(c: ConfigurationView) -> Seq<char> {
    match c {
        ConfigurationView::Computer => "Computer"@,
        ConfigurationView::User => "User"@,
        ConfigurationView::UserAdministrators => "User:Administrators"@,
        ConfigurationView::UserNonAdministrators => "User:Non-Administrators"@,
        ConfigurationView::UserNamed(n) => "User:"@ + n,
    }
}

/// How a configuration line is read: the key before the first `:`, and
/// the part after it where it names the administrators or the
/// non-administrators, are compared without regard to ASCII case; any
/// other part after it is a user's name, kept as it is.
pub open spec fn parse_configuration_spec(s: Seq<char>) -> Result<ConfigurationView, Seq<char>> {
    let t = trim(s);
    let kv = split_once_or_all(t, ":"@);
    let k = ascii_upper(kv.0);
    let value = kv.1;
    if k == "COMPUTER"@ {
        Ok(ConfigurationView::Computer)
    } else if k == "USER"@ {
        if ascii_upper(value) == "ADMINISTRATORS"@ {
            Ok(ConfigurationView::UserAdministrators)
        } else if ascii_upper(value) == "NON-ADMINISTRATORS"@ {
            Ok(ConfigurationView::UserNonAdministrators)
        } else if value.len() == 0 {
            Ok(ConfigurationView::User)
        } else {
            Ok(ConfigurationView::UserNamed(value))
        }
    } else {
        Err("Invalid configuration line: "@ + t)
    }
}

pub fn format_configuration_exec(c: &Configuration) -> (r: String)
    ensures
        r@ == format_configuration(c@),
{
    match c {
        Configuration::Computer => crate::text::owned("Computer"),
        Configuration::User => crate::text::owned("User"),
        Configuration::UserAdministrators => crate::text::owned("User:Administrators"),
        Configuration::UserNonAdministrators => crate::text::owned("User:Non-Administrators"),
        Configuration::UserNamed(n) => {
            let p = chars_of("User:");
            let v = chars_of(n.as_str());
            let r = concat(p.as_slice(), v.as_slice());
            string_of(r.as_slice())
        },
    }
}

/// Reads a configuration line.
pub fn parse_configuration(s: &str) -> (r: Result<Configuration, String>)
    ensures
        rview(r) == parse_configuration_spec(s@),
{
    let t = trim_chars(chars_of(s).as_slice());
    let colon = chars_of(":");
    let (key, value) = split_once_or_all_chars(t.as_slice(), colon.as_slice());
    let k = ascii_upper_chars(key.as_slice());
    let vu = ascii_upper_chars(value.as_slice());
    if seq_eq(k.as_slice(), chars_of("COMPUTER").as_slice()) {
        Ok(Configuration::Computer)
    } else if seq_eq(k.as_slice(), chars_of("USER").as_slice()) {
        if seq_eq(vu.as_slice(), chars_of("ADMINISTRATORS").as_slice()) {
            Ok(Configuration::UserAdministrators)
        } else if seq_eq(vu.as_slice(), chars_of("NON-ADMINISTRATORS").as_slice()) {
            Ok(Configuration::UserNonAdministrators)
        } else if value.len() == 0 {
            Ok(Configuration::User)
        } else {
            Ok(Configuration::UserNamed(string_of(value.as_slice())))
        }
    } else {
        let m = concat(chars_of("Invalid configuration line: ").as_slice(), t.as_slice());
        Err(string_of(m.as_slice()))
    }
}

// ------------------------------------------------------------------
// Numbers and escapes
// ------------------------------------------------------------------

/// A number in decimal, or in hexadecimal after `0x`; the error is the
/// text of `ParseIntError`.
pub open spec fn parse_number_spec(s: Seq<char>, max: nat) -> Result<nat, Seq<char>> {
    let r = match strip_prefix(s, "0x"@) {
        Some(h) => parse_uint(h, 16, max),
        None => parse_uint(s, 10, max),
    };
    match r {
        Ok(v) => Ok(v),
        Err(k) => Err(int_error_text(k)),
    }
}

fn parse_number_chars(s: &[char], max: u128) -> (r: Result<u128, String>)
    ensures
        match parse_number_spec(s@, max as nat) {
            Ok(v) => r == Ok::<u128, String>(v as u128),
            Err(e) => r is Err && r->Err_0@ == e,
        },
        r matches Ok(v) ==> v <= max,
        parse_number_spec(s@, max as nat) matches Ok(v) ==> v <= max,
{
    proof {
        crate::num::lemma_parse_uint_bound(s@, 10, max as nat);
        if let Some(h) = strip_prefix(s@, "0x"@) {
            crate::num::lemma_parse_uint_bound(h, 16, max as nat);
        }
    }
    let x = chars_of("0x");
    let p = match strip_prefix_chars(s, x.as_slice()) {
        Some(h) => parse_uint_chars(h.as_slice(), 16, max),
        None => parse_uint_chars(s, 10, max),
    };
    match p {
        Ok(v) => Ok(v),
        Err(k) => Err(int_error_message(k)),
    }
}

/// Reads a DWORD value: decimal, or hexadecimal after `0x`.
pub fn parse_number(s: &str) -> (r: Result<u64, String>)
    ensures
        match parse_number_spec(s@, u64::MAX as nat) {
            Ok(v) => r == Ok::<u64, String>(v as u64),
            Err(e) => r is Err && r->Err_0@ == e,
        },
{
    let v = chars_of(s);
    match parse_number_chars(v.as_slice(), u64::MAX as u128) {
        Ok(n) => Ok(n as u64),
        Err(e) => Err(e),
    }
}

/// Reads a QWORD value: decimal, or hexadecimal after `0x`.
pub fn parse_qword_number(s: &str) -> (r: Result<u128, String>)
    ensures
        match parse_number_spec(s@, u128::MAX as nat) {
            Ok(v) => r == Ok::<u128, String>(v as u128),
            Err(e) => r is Err && r->Err_0@ == e,
        },
{
    let v = chars_of(s);
    parse_number_chars(v.as_slice(), u128::MAX)
}

/// The escapes `\r`, `\n` and `\\` become the characters they name; any other
/// backslash stays as it is.
pub open spec fn unescape(s: Seq<char>) -> Seq<char>
    decreases s.len(),
{
    if s.len() == 0 {
        seq![]
    } else if s[0] == '\\' && s.len() >= 2 && s[1] == 'r' {
        seq!['\r'] + unescape(s.skip(2))
    } else if s[0] == '\\' && s.len() >= 2 && s[1] == 'n' {
        seq!['\n'] + unescape(s.skip(2))
    } else if s[0] == '\\' && s.len() >= 2 && s[1] == '\\' {
        seq!['\\'] + unescape(s.skip(2))
    } else {
        seq![s[0]] + unescape(s.drop_first())
    }
}

fn unescape_chars(s: &[char]) -> (r: Vec<char>)
    ensures
        r@ == unescape(s@),
{
    let n = s.len();
    let mut r: Vec<char> = Vec::new();
    let mut i: usize = 0;
    assert(s@.skip(0) =~= s@);
    while i < n
        invariant
            i <= n,
            n == s@.len(),
            unescape(s@) == r@ + unescape(s@.skip(i as int)),
        decreases n - i,
    {
        let ghost t = s@.skip(i as int);
        let ghost old_r = r@;
        let c = s[i];
        assert(t[0] == c);
        if c == '\\' && i + 1 < n && (s[i + 1] == 'r' || s[i + 1] == 'n' || s[i + 1] == '\\') {
            assert(t[1] == s@[i + 1]);
            assert(t.skip(2) =~= s@.skip(i + 2));
            let e = if s[i + 1] == 'r' {
                '\r'
            } else if s[i + 1] == 'n' {
                '\n'
            } else {
                '\\'
            };
            r.push(e);
            assert(r@ =~= old_r + seq![e]);
            i = i + 2;
        } else {
            assert(t.drop_first() =~= s@.skip(i + 1));
            assert(c == '\\' && t.len() >= 2 ==> t[1] == s@[i + 1]);
            r.push(c);
            assert(r@ =~= old_r + seq![c]);
            i = i + 1;
        }
    }
    assert(s@.skip(n as int) =~= Seq::<char>::empty());
    assert(r@ + Seq::<char>::empty() =~= r@);
    r
}

/// Replaces the escapes `\r`, `\n` and `\\` by the characters they name.
pub fn unescape_string(s: &str) -> (r: String)
    ensures
        r@ == unescape(s@),
{
    let v = chars_of(s);
    let u = unescape_chars(v.as_slice());
    string_of(u.as_slice())
}

} // verus!

verus! {

// ------------------------------------------------------------------
// Action lines
// ------------------------------------------------------------------

/// The bytes of a `BINARY` value, one hexadecimal number per part.
pub open spec fn parse_hex_bytes(parts: Seq<Seq<char>>) -> Option<Seq<u8>>
    decreases parts.len(),
{
    if parts.len() == 0 {
        Some(seq![])
    } else {
        match parse_uint(trim(parts[0]), 16, 255) {
            Ok(b) => match parse_hex_bytes(parts.drop_first()) {
                Some(rest) => Some(seq![b as u8] + rest),
                None => None,
            },
            Err(_) => None,
        }
    }
}

/// The separator of the strings of a `MULTISZ` value: a backslash and a zero.
pub open spec fn multi_sep() -> Seq<char> {
    seq!['\\', '0']
}

/// How an action line is read: the key before the first `:` is compared
/// without regard to ASCII case; the value after it depends on the key.
pub open spec fn parse_action_spec(s: Seq<char>) -> Result<ActionView, Seq<char>> {
    let t = trim(s);
    let kv = split_once_or_all(t, ":"@);
    let k = ascii_upper(kv.0);
    let value = kv.1;
    if k == "DELETE"@ {
        Ok(ActionView::Delete)
    } else if k == "CREATEKEY"@ {
        Ok(ActionView::CreateKey)
    } else if k == "DELETEALLVALUES"@ {
        Ok(ActionView::DeleteAllValues)
    } else if k == "DELETEKEYS"@ {
        Ok(ActionView::DeleteKeys(seq![]))
    } else if k == "CLEAR"@ {
        Ok(ActionView::Clear)
    } else if k == "DWORD"@ {
        match parse_number_spec(value, u64::MAX as nat) {
            Ok(n) => Ok(ActionView::Dword(n as u64)),
            Err(e) => Err(e),
        }
    } else if k == "QWORD"@ {
        match parse_number_spec(value, u128::MAX as nat) {
            Ok(n) => Ok(ActionView::Qword(n as u128)),
            Err(e) => Err(e),
        }
    } else if k == "SZ"@ {
        Ok(ActionView::Sz(unescape(value)))
    } else if k == "EXSZ"@ {
        Ok(ActionView::ExSz(unescape(value)))
    } else if k == "MULTISZ"@ {
        Ok(ActionView::MultiSz(split(unescape(value), multi_sep())))
    } else if k == "BINARY"@ {
        match parse_hex_bytes(split(value, ","@)) {
            Some(b) => Ok(ActionView::Binary(b)),
            None => Err("Invalid binary data in action: "@ + s),
        }
    } else {
        Err("Invalid action line: "@ + t)
    }
}

/// How an action is written on its line.
pub open spec fn format_action(a: ActionView) -> Seq<char> {
    match a {
        ActionView::Delete => "DELETE"@,
        ActionView::Dword(n) => "DWORD:"@ + decimal(n as nat),
        ActionView::Qword(n) => "QWORD:"@ + decimal(n as nat),
        ActionView::Sz(s) => "SZ:"@ + s,
        ActionView::ExSz(s) => "EXSZ:"@ + s,
        ActionView::MultiSz(v) => "MULTISZ:"@ + join(v, multi_sep()),
        ActionView::Binary(b) => "BINARY:"@ + join(b.map_values(|x: u8| hex2(x)), ","@),
        ActionView::CreateKey => "CREATEKEY"@,
        ActionView::DeleteAllValues => "DELETEALLVALUES"@,
        ActionView::DeleteKeys(k) => "DELETEKEYS:"@ + join(k, ";"@),
        ActionView::Clear => "CLEAR"@,
    }
}

fn parse_hex_bytes_exec(parts: &Vec<Vec<char>>) -> (r: Option<Vec<u8>>)
    ensures
        match parse_hex_bytes(views(parts@)) {
            Some(b) => r is Some && r->Some_0@ == b,
            None => r is None,
        },
{
    let n = parts.len();
    let mut out: Vec<u8> = Vec::new();
    let mut k: usize = 0;
    assert(views(parts@).skip(0) =~= views(parts@));
    while k < n
        invariant
            k <= n,
            n == parts@.len(),
            parse_hex_bytes(views(parts@)) == match parse_hex_bytes(views(parts@).skip(k as int)) {
                Some(rest) => Some(out@ + rest),
                None => None::<Seq<u8>>,
            },
        decreases n - k,
    {
        let ghost t = views(parts@).skip(k as int);
        assert(t[0] == parts@[k as int]@);
        assert(t.drop_first() =~= views(parts@).skip(k + 1));
        let piece = trim_chars(parts[k].as_slice());
        match parse_uint_chars(piece.as_slice(), 16, 255) {
            Ok(b) => {
                let ghost old_out = out@;
                out.push(b as u8);
                assert(t.len() > 0);
                assert(piece@ == trim(t[0]));
                assert(parse_uint(trim(t[0]), 16, 255) == Ok::<nat, IntErrorKind>(b as nat));
                assert(parse_hex_bytes(t) == match parse_hex_bytes(t.drop_first()) {
                    Some(rest) => Some(seq![b as u8] + rest),
                    None => None::<Seq<u8>>,
                });
                proof {
                    match parse_hex_bytes(t.drop_first()) {
                        Some(rest) => {
                            assert(old_out + (seq![b as u8] + rest) =~= out@ + rest);
                        },
                        None => {},
                    }
                }
                k = k + 1;
            },
            Err(_) => {
                return None;
            },
        }
    }
    assert(views(parts@).skip(n as int) =~= Seq::<Seq<char>>::empty());
    assert(out@ + Seq::<u8>::empty() =~= out@);
    Some(out)
}

fn key_is(k: &Vec<char>, lit: &str) -> (r: bool)
    ensures
        r == (k@ == lit@),
{
    let l = chars_of(lit);
    seq_eq(k.as_slice(), l.as_slice())
}

fn message(prefix: &str, rest: &[char]) -> (r: String)
    ensures
        r@ == prefix@ + rest@,
{
    let p = chars_of(prefix);
    let m = concat(p.as_slice(), rest);
    string_of(m.as_slice())
}

/// Reads an action line.
pub fn parse_action(s: &str) -> (r: Result<Action, String>)
    ensures
        rview(r) == parse_action_spec(s@),
{
    let sv = chars_of(s);
    let t = trim_chars(sv.as_slice());
    let colon = chars_of(":");
    let (key, value) = split_once_or_all_chars(t.as_slice(), colon.as_slice());
    let k = ascii_upper_chars(key.as_slice());
    if key_is(&k, "DELETE") {
        Ok(Action::Delete)
    } else if key_is(&k, "CREATEKEY") {
        Ok(Action::CreateKey)
    } else if key_is(&k, "DELETEALLVALUES") {
        Ok(Action::DeleteAllValues)
    } else if key_is(&k, "DELETEKEYS") {
        let v: Vec<String> = Vec::new();
        assert(v.deep_view() =~= Seq::<Seq<char>>::empty());
        Ok(Action::DeleteKeys(v))
    } else if key_is(&k, "CLEAR") {
        Ok(Action::Clear)
    } else if key_is(&k, "DWORD") {
        match parse_number_chars(value.as_slice(), u64::MAX as u128) {
            Ok(n) => Ok(Action::Dword(n as u64)),
            Err(e) => Err(e),
        }
    } else if key_is(&k, "QWORD") {
        match parse_number_chars(value.as_slice(), u128::MAX) {
            Ok(n) => Ok(Action::Qword(n)),
            Err(e) => Err(e),
        }
    } else if key_is(&k, "SZ") {
        let u = unescape_chars(value.as_slice());
        Ok(Action::Sz(string_of(u.as_slice())))
    } else if key_is(&k, "EXSZ") {
        let u = unescape_chars(value.as_slice());
        Ok(Action::ExSz(string_of(u.as_slice())))
    } else if key_is(&k, "MULTISZ") {
        let u = unescape_chars(value.as_slice());
        let sep = vec!['\\', '0'];
        assert(sep@ =~= multi_sep());
        let parts = split_chars(u.as_slice(), sep.as_slice());
        Ok(Action::MultiSz(strings_of(&parts)))
    } else if key_is(&k, "BINARY") {
        let comma = vec![','];
        proof {
            reveal_strlit(",");
        }
        assert(comma@ =~= ","@);
        let parts = split_chars(value.as_slice(), comma.as_slice());
        match parse_hex_bytes_exec(&parts) {
            Some(b) => Ok(Action::Binary(b)),
            None => Err(message("Invalid binary data in action: ", sv.as_slice())),
        }
    } else {
        Err(message("Invalid action line: ", t.as_slice()))
    }
}

fn hex_parts(b: &Vec<u8>) -> (r: Vec<String>)
    ensures
        r.deep_view() == b@.map_values(|x: u8| hex2(x)),
{
    let mut r: Vec<String> = Vec::new();
    let mut k: usize = 0;
    while k < b.len()
        invariant
            k <= b@.len(),
            r@.len() == k,
            forall|j: int| 0 <= j < k ==> #[trigger] r@[j]@ == hex2(b@[j]),
        decreases b@.len() - k,
    {
        let h = fmt_hex2(b[k]);
        r.push(string_of(h.as_slice()));
        k = k + 1;
    }
    assert(r.deep_view() =~= b@.map_values(|x: u8| hex2(x)));
    r
}

fn prefixed(prefix: &str, rest: &String) -> (r: String)
    ensures
        r@ == prefix@ + rest@,
{
    let v = chars_of(rest.as_str());
    message(prefix, v.as_slice())
}

/// Writes an action on its line.
pub fn format_action_exec(a: &Action) -> (r: String)
    ensures
        r@ == format_action(a@),
{
    match a {
        Action::Delete => crate::text::owned("DELETE"),
        Action::Dword(n) => {
            let d = fmt_decimal(*n as u128);
            message("DWORD:", d.as_slice())
        },
        Action::Qword(n) => {
            let d = fmt_decimal(*n);
            message("QWORD:", d.as_slice())
        },
        Action::Sz(s) => prefixed("SZ:", s),
        Action::ExSz(s) => prefixed("EXSZ:", s),
        Action::MultiSz(v) => {
            let sep = string_of(vec!['\\', '0'].as_slice());
            assert(sep@ =~= multi_sep());
            let j = join_strs(v.as_slice(), sep.as_str());
            prefixed("MULTISZ:", &j)
        },
        Action::Binary(b) => {
            let parts = hex_parts(b);
            let j = join_strs(parts.as_slice(), ",");
            prefixed("BINARY:", &j)
        },
        Action::CreateKey => crate::text::owned("CREATEKEY"),
        Action::DeleteAllValues => crate::text::owned("DELETEALLVALUES"),
        Action::DeleteKeys(k) => {
            let j = join_strs(k.as_slice(), ";");
            prefixed("DELETEKEYS:", &j)
        },
        Action::Clear => crate::text::owned("CLEAR"),
    }
}

} // verus!

verus! {

// ------------------------------------------------------------------
// Errors
// ------------------------------------------------------------------

/// What can go wrong while reading LGPO text.
#[derive(Debug)]
pub enum LgpoError {
    Message(String),
    Eof,
    InvalidFormat(String),
    Custom(String),
}

pub enum LgpoErrorView {
    Message(Seq<char>),
    Eof,
    InvalidFormat(Seq<char>),
    Custom(Seq<char>),
}

impl View for LgpoError {
    type V = LgpoErrorView;

    open spec fn view(&self) -> LgpoErrorView {
        match self {
            LgpoError::Message(s) => LgpoErrorView::Message(s@),
            LgpoError::Eof => LgpoErrorView::Eof,
            LgpoError::InvalidFormat(s) => LgpoErrorView::InvalidFormat(s@),
            LgpoError::Custom(s) => LgpoErrorView::Custom(s@),
        }
    }
}

pub open spec fn lgpo_error_text(e: LgpoErrorView) -> Seq<char> {
    match e {
        LgpoErrorView::Message(s) => "Error: "@ + s,
        LgpoErrorView::Eof => "Unexpected EOF"@,
        LgpoErrorView::InvalidFormat(s) => "Invalid format: "@ + s,
        LgpoErrorView::Custom(s) => s,
    }
}

impl LgpoError {
    /// The text the error displays.
    pub fn to_message(&self) -> (r: String)
        ensures
            r@ == lgpo_error_text(self@),
    {
        match self {
            LgpoError::Message(s) => prefixed("Error: ", s),
            LgpoError::Eof => crate::text::owned("Unexpected EOF"),
            LgpoError::InvalidFormat(s) => prefixed("Invalid format: ", s),
            LgpoError::Custom(s) => copy_string(s),
        }
    }

    /// An error made from a message.
    pub fn custom(msg: String) -> (r: LgpoError)
        ensures
            r@ == LgpoErrorView::Custom(msg@),
    {
        LgpoError::Custom(msg)
    }
}

// ------------------------------------------------------------------
// Reading entries
// ------------------------------------------------------------------

/// Blank lines and lines starting with `;` carry no data.
pub open spec fn is_skipped(l: Seq<char>) -> bool {
    trim(l).len() == 0 || starts_with(trim(l), ";"@)
}

/// The next line that carries data, and the lines after it.
pub open spec fn next_data_line(lines: Seq<Seq<char>>) -> Option<(Seq<char>, Seq<Seq<char>>)>
    decreases lines.len(),
{
    if lines.len() == 0 {
        None
    } else if is_skipped(lines[0]) {
        next_data_line(lines.drop_first())
    } else {
        Some((lines[0], lines.drop_first()))
    }
}

pub proof fn lemma_next_data_line_shorter(lines: Seq<Seq<char>>)
    ensures
        next_data_line(lines) is Some ==> next_data_line(lines)->Some_0.1.len() < lines.len(),
    decreases lines.len(),
{
    if lines.len() > 0 && is_skipped(lines[0]) {
        lemma_next_data_line_shorter(lines.drop_first());
    }
}

/// The subkeys that a `DELETEKEYS` entry names on its value name line.
pub open spec fn subkeys_of(value_name: Seq<char>) -> Seq<Seq<char>> {
    split(value_name, ";"@).map_values(|k: Seq<char>| trim(k))
}

/// An entry's action as read from its action line, with the subkeys of
/// `DELETEKEYS` taken from the value name line.
pub open spec fn with_subkeys(a: ActionView, value_name: Seq<char>) -> ActionView {
    match a {
        ActionView::DeleteKeys(_) => ActionView::DeleteKeys(subkeys_of(value_name)),
        _ => a,
    }
}

/// Reads one entry: four data lines, the configuration parsed first.
pub open spec fn parse_entry_spec(lines: Seq<Seq<char>>) -> Result<
    Option<(LgpoView, Seq<Seq<char>>)>,
    LgpoErrorView,
> {
    match next_data_line(lines) {
        None => Ok(None),
        Some((config_line, r1)) => match parse_configuration_spec(config_line) {
            Err(e) => Err(LgpoErrorView::InvalidFormat(e)),
            Ok(c) => match next_data_line(r1) {
                None => Err(LgpoErrorView::Eof),
                Some((key, r2)) => match next_data_line(r2) {
                    None => Err(LgpoErrorView::Eof),
                    Some((value_name, r3)) => match next_data_line(r3) {
                        None => Err(LgpoErrorView::Eof),
                        Some((action_line, r4)) => match parse_action_spec(action_line) {
                            Err(e) => Err(LgpoErrorView::InvalidFormat(e)),
                            Ok(a) => {
                                let a2 = with_subkeys(a, value_name);
                                Ok(
                                    Some(
                                        (
                                            LgpoView {
                                                configuration: c,
                                                registry_key: key,
                                                value_name,
                                                action: a2,
                                            },
                                            r4,
                                        ),
                                    ),
                                )
                            },
                        },
                    },
                },
            },
        },
    }
}

pub proof fn lemma_parse_entry_shorter(lines: Seq<Seq<char>>)
    ensures
        parse_entry_spec(lines) matches Ok(Some((e, rest))) ==> rest.len() < lines.len(),
{
    lemma_next_data_line_shorter(lines);
    if let Some((c, r1)) = next_data_line(lines) {
        lemma_next_data_line_shorter(r1);
        if let Some((k, r2)) = next_data_line(r1) {
            lemma_next_data_line_shorter(r2);
            if let Some((v, r3)) = next_data_line(r2) {
                lemma_next_data_line_shorter(r3);
            }
        }
    }
}

/// Each entry read is written back to text and read again, field by
/// field, before it is handed out; a failure there is a custom error. The
/// subkeys of `DELETEKEYS` are taken again from the value name.
pub open spec fn reload(e: LgpoView) -> Result<LgpoView, LgpoErrorView> {
    match parse_configuration_spec(format_configuration(e.configuration)) {
        Err(m) => Err(LgpoErrorView::Custom(m)),
        Ok(c) => match parse_action_spec(format_action(e.action)) {
            Err(m) => Err(LgpoErrorView::Custom(m)),
            Ok(a) => Ok(
                LgpoView {
                    configuration: c,
                    registry_key: e.registry_key,
                    value_name: e.value_name,
                    action: with_subkeys(a, e.value_name),
                },
            ),
        },
    }
}

/// Reads all the entries of a text, in order.
pub open spec fn parse_all(lines: Seq<Seq<char>>) -> Result<Seq<LgpoView>, LgpoErrorView>
    decreases lines.len(),
{
    match parse_entry_spec(lines) {
        Err(e) => Err(e),
        Ok(None) => Ok(seq![]),
        Ok(Some((e, rest))) => {
            proof {
                lemma_parse_entry_shorter(lines);
            }
            match reload(e) {
                Err(x) => Err(x),
                Ok(e2) => match parse_all(rest) {
                    Ok(es) => Ok(seq![e2] + es),
                    Err(x) => Err(x),
                },
            }
        },
    }
}

/// Reads LGPO text entry by entry from its lines.
pub struct Deserializer {
    lines: Vec<String>,
    pos: usize,
}

impl Deserializer {
    #[verifier::type_invariant]
    spec fn inv(self) -> bool {
        self.pos <= self.lines@.len()
    }

    /// The lines not read yet.
    pub closed spec fn remaining(&self) -> Seq<Seq<char>> {
        self.lines.deep_view().skip(self.pos as int)
    }

    pub fn new(lines: Vec<String>) -> (r: Deserializer)
        ensures
            r.remaining() == lines.deep_view(),
    {
        let r = Deserializer { lines, pos: 0 };
        assert(r.lines.deep_view().skip(0) =~= r.lines.deep_view());
        r
    }

    fn next_line(&mut self) -> (r: Result<Option<String>, LgpoError>)
        ensures
            old(self).remaining().len() == 0 ==> r == Ok::<Option<String>, LgpoError>(None)
                && final(self).remaining() == old(self).remaining(),
            old(self).remaining().len() > 0 ==> r is Ok && r->Ok_0 is Some && r->Ok_0->Some_0@
                == old(self).remaining()[0] && final(self).remaining() == old(
                self,
            ).remaining().drop_first(),
    {
        proof {
            use_type_invariant(&*self);
        }
        if self.pos < self.lines.len() {
            let l = copy_string(&self.lines[self.pos]);
            assert(self.lines.deep_view()[self.pos as int] == self.lines@[self.pos as int]@);
            let ghost before = self.remaining();
            self.pos = self.pos + 1;
            assert(self.remaining() =~= before.drop_first());
            Ok(Some(l))
        } else {
            Ok(None)
        }
    }

    fn next_non_comment_line(&mut self) -> (r: Result<Option<String>, LgpoError>)
        ensures
            r is Ok,
            match next_data_line(old(self).remaining()) {
                None => r->Ok_0 is None,
                Some((l, rest)) => r->Ok_0 is Some && r->Ok_0->Some_0@ == l
                    && final(self).remaining() == rest,
            },
    {
        loop
            invariant
                next_data_line(old(self).remaining()) == next_data_line(self.remaining()),
            decreases self.remaining().len(),
        {
            let ghost before = self.remaining();
            let line = self.next_line()?;
            match line {
                Some(l) => {
                    let t = trim_chars(chars_of(l.as_str()).as_slice());
                    let semi = chars_of(";");
                    let commented = t.len() > 0 && matches_at(t.as_slice(), semi.as_slice(), 0);
                    assert(t@.skip(0) =~= t@);
                    if t.len() == 0 || commented {
                        continue ;
                    }
                    return Ok(Some(l));
                },
                None => {
                    return Ok(None);
                },
            }
        }
    }

    fn parse_entry(&mut self) -> (r: Result<Option<LocalGroupPolicyObject>, LgpoError>)
        ensures
            match parse_entry_spec(old(self).remaining()) {
                Err(e) => r is Err && r->Err_0@ == e,
                Ok(None) => r is Ok && r->Ok_0 is None,
                Ok(Some((e, rest))) => r is Ok && r->Ok_0 is Some && r->Ok_0->Some_0@ == e
                    && final(self).remaining() == rest,
            },
    {
        let config_line = match self.next_non_comment_line()? {
            Some(l) => l,
            None => return Ok(None),
        };
        let config = match parse_configuration(config_line.as_str()) {
            Ok(c) => c,
            Err(e) => return Err(LgpoError::InvalidFormat(e)),
        };
        let reg_key_line = match self.next_non_comment_line()? {
            Some(l) => l,
            None => return Err(LgpoError::Eof),
        };
        let value_name_line = match self.next_non_comment_line()? {
            Some(l) => l,
            None => return Err(LgpoError::Eof),
        };
        let action_line = match self.next_non_comment_line()? {
            Some(l) => l,
            None => return Err(LgpoError::Eof),
        };
        let mut action = match parse_action(action_line.as_str()) {
            Ok(a) => a,
            Err(e) => return Err(LgpoError::InvalidFormat(e)),
        };
        if let Action::DeleteKeys(_) = action {
            action = Action::DeleteKeys(subkeys_from(value_name_line.as_str()));
        }
        Ok(
            Some(
                LocalGroupPolicyObject {
                    configuration: config,
                    registry_key: reg_key_line,
                    value_name: value_name_line,
                    action,
                },
            ),
        )
    }

    /// Reads every entry that is left (`deserialize_seq` on a sequence of entries).
    pub fn deserialize_seq(&mut self) -> (r: Result<Vec<LocalGroupPolicyObject>, LgpoError>)
        ensures
            match parse_all(old(self).remaining()) {
                Ok(es) => r is Ok && r->Ok_0.deep_view() == es,
                Err(e) => r is Err && r->Err_0@ == e,
            },
    {
        let mut out: Vec<LocalGroupPolicyObject> = Vec::new();
        loop
            invariant
                parse_all(old(self).remaining()) == match parse_all(self.remaining()) {
                    Ok(es) => Ok(out.deep_view() + es),
                    Err(e) => Err::<Seq<LgpoView>, LgpoErrorView>(e),
                },
            decreases self.remaining().len(),
        {
            let ghost before = self.remaining();
            proof {
                lemma_parse_entry_shorter(before);
            }
            match self.parse_entry()? {
                None => {
                    assert(out.deep_view() + Seq::<LgpoView>::empty() =~= out.deep_view());
                    return Ok(out);
                },
                Some(e) => {
                    let e2 = reload_entry(&e)?;
                    let ghost old_out = out.deep_view();
                    out.push(e2);
                    proof {
                        if let Ok(es) = parse_all(self.remaining()) {
                            assert(old_out + (seq![e2@] + es) =~= out.deep_view() + es);
                        }
                    }
                },
            }
        }
    }
}

/// The subkeys named on a value name line, `;`-separated and trimmed.
pub fn subkeys_from(value_name: &str) -> (r: Vec<String>)
    ensures
        r.deep_view() == subkeys_of(value_name@),
{
    let semi = chars_of(";");
    proof {
        reveal_strlit(";");
    }
    let parts = split_chars(chars_of(value_name).as_slice(), semi.as_slice());
    let mut subkeys: Vec<String> = Vec::new();
    let mut k: usize = 0;
    while k < parts.len()
        invariant
            k <= parts@.len(),
            subkeys@.len() == k,
            forall|j: int| 0 <= j < k ==> #[trigger] subkeys@[j]@ == trim(parts@[j]@),
        decreases parts@.len() - k,
    {
        let t = trim_chars(parts[k].as_slice());
        subkeys.push(string_of(t.as_slice()));
        k = k + 1;
    }
    assert(subkeys.deep_view() =~= subkeys_of(value_name@));
    subkeys
}

/// Writes an entry's configuration and action back to text and reads them again.
pub fn reload_entry(e: &LocalGroupPolicyObject) -> (r: Result<LocalGroupPolicyObject, LgpoError>)
    ensures
        match reload(e@) {
            Ok(x) => r is Ok && r->Ok_0@ == x,
            Err(x) => r is Err && r->Err_0@ == x,
        },
{
    let cs = format_configuration_exec(&e.configuration);
    let c = match parse_configuration(cs.as_str()) {
        Ok(c) => c,
        Err(m) => return Err(LgpoError::custom(m)),
    };
    let acts = format_action_exec(&e.action);
    let mut a = match parse_action(acts.as_str()) {
        Ok(a) => a,
        Err(m) => return Err(LgpoError::custom(m)),
    };
    if let Action::DeleteKeys(_) = a {
        a = Action::DeleteKeys(subkeys_from(e.value_name.as_str()));
    }
    Ok(
        LocalGroupPolicyObject {
            configuration: c,
            registry_key: copy_string(&e.registry_key),
            value_name: copy_string(&e.value_name),
            action: a,
        },
    )
}

} // verus!

verus! {

// ------------------------------------------------------------------
// Writing entries
// ------------------------------------------------------------------

/// The four lines of an entry.
pub open spec fn entry_lines(e: LgpoView) -> Seq<Seq<char>> {
    seq![format_configuration(e.configuration), e.registry_key, e.value_name, format_action(e.action)]
}

/// The lines of a list of entries, a blank line between two entries.
pub open spec fn lines_from(es: Seq<LgpoView>, first: bool) -> Seq<Seq<char>>
    decreases es.len(),
{
    if es.len() == 0 {
        seq![]
    } else {
        (if first {
            Seq::<Seq<char>>::empty()
        } else {
            seq![Seq::<char>::empty()]
        }) + entry_lines(es[0]) + lines_from(es.drop_first(), false)
    }
}

pub open spec fn entries_lines(es: Seq<LgpoView>) -> Seq<Seq<char>> {
    lines_from(es, true)
}

/// Each line followed by a newline.
pub open spec fn text_of(lines: Seq<Seq<char>>) -> Seq<char>
    decreases lines.len(),
{
    if lines.len() == 0 {
        seq![]
    } else {
        lines[0] + seq!['\n'] + text_of(lines.drop_first())
    }
}

/// The lines that `serialize_entries` writes.
pub fn entry_lines_exec(entries: &[LocalGroupPolicyObject]) -> (r: Vec<String>)
    ensures
        r.deep_view() == entries_lines(entries.deep_view()),
{
    let mut out: Vec<String> = Vec::new();
    let n = entries.len();
    let mut i: usize = 0;
    let ghost es = entries.deep_view();
    assert(es.skip(0) =~= es);
    while i < n
        invariant
            i <= n,
            n == entries@.len(),
            es == entries.deep_view(),
            out.deep_view() + lines_from(es.skip(i as int), i == 0) == entries_lines(es),
        decreases n - i,
    {
        let ghost before = out.deep_view();
        let ghost t = es.skip(i as int);
        assert(t[0] == entries@[i as int]@);
        assert(t.drop_first() =~= es.skip(i + 1));
        if i > 0 {
            out.push(string_of(Vec::<char>::new().as_slice()));
        }
        let ghost mid = out.deep_view();
        assert(mid =~= before + (if i == 0 {
            Seq::<Seq<char>>::empty()
        } else {
            seq![Seq::<char>::empty()]
        }));
        out.push(format_configuration_exec(&entries[i].configuration));
        out.push(copy_string(&entries[i].registry_key));
        out.push(copy_string(&entries[i].value_name));
        out.push(format_action_exec(&entries[i].action));
        assert(out.deep_view() =~= mid + entry_lines(t[0]));
        assert(out.deep_view() + lines_from(es.skip(i + 1), false) =~= before + lines_from(
            t,
            i == 0,
        ));
        i = i + 1;
    }
    assert(es.skip(n as int) =~= Seq::<LgpoView>::empty());
    assert(out.deep_view() + Seq::<Seq<char>>::empty() =~= out.deep_view());
    out
}

/// Writes entries as LGPO text: four lines each, a blank line between two.
pub fn serialize_entries(entries: &[LocalGroupPolicyObject]) -> (r: String)
    ensures
        r@ == text_of(entries_lines(entries.deep_view())),
{
    let lines = entry_lines_exec(entries);
    let mut acc: Vec<char> = Vec::new();
    let n = lines.len();
    let mut i: usize = n;
    let ghost ls = lines.deep_view();
    assert(ls.skip(n as int) =~= Seq::<Seq<char>>::empty());
    while i > 0
        invariant
            i <= n,
            n == lines@.len(),
            ls == lines.deep_view(),
            acc@ == text_of(ls.skip(i as int)),
        decreases i,
    {
        let l = chars_of(lines[i - 1].as_str());
        let nl = vec!['\n'];
        let a = concat(l.as_slice(), nl.as_slice());
        acc = concat(a.as_slice(), acc.as_slice());
        let ghost t = ls.skip(i - 1);
        assert(t[0] == lines@[i - 1]@);
        assert(t.drop_first() =~= ls.skip(i as int));
        i = i - 1;
    }
    assert(ls.skip(0) =~= ls);
    string_of(acc.as_slice())
}

// ------------------------------------------------------------------
// The rule method
// ------------------------------------------------------------------

pub open spec fn lgpo_to_raw(e: LgpoView, compare_mode: bool) -> crate::raw::RawView {
    crate::raw::RawView {
        method: "lgpo"@,
        target: if compare_mode {
            crate::raw::str_lowercase(e.registry_key)
        } else {
            e.registry_key
        },
        option1: if compare_mode {
            crate::raw::str_lowercase(e.value_name)
        } else {
            e.value_name
        },
        option2: seq![],
        scope: format_configuration(e.configuration),
        action: format_action(e.action),
    }
}

pub open spec fn lgpo_from_raw(r: crate::raw::RawView) -> Result<LgpoView, Seq<char>> {
    match parse_configuration_spec(r.scope) {
        Err(e) => Err("Invalid configuration : "@ + e),
        Ok(c) => match parse_action_spec(r.action) {
            Err(e) => Err("Invalid action : "@ + e),
            Ok(a) => Ok(
                LgpoView { configuration: c, registry_key: r.target, value_name: r.option1, action: a },
            ),
        },
    }
}

/// Whether two entries name the same setting: the same configuration, and the
/// same registry key and value name up to case.
pub open spec fn same_setting(a: LgpoView, b: LgpoView) -> bool {
    &&& crate::raw::str_lowercase(a.registry_key) == crate::raw::str_lowercase(b.registry_key)
    &&& crate::raw::str_lowercase(a.value_name) == crate::raw::str_lowercase(b.value_name)
    &&& a.configuration == b.configuration
}

/// The first entry of `lgpos` that names the same setting as `e`.
pub open spec fn first_same_setting(lgpos: Seq<LgpoView>, e: LgpoView) -> Option<int>
    decreases lgpos.len(),
{
    if lgpos.len() == 0 {
        None
    } else if same_setting(lgpos[0], e) {
        Some(0)
    } else {
        match first_same_setting(lgpos.drop_first(), e) {
            Some(i) => Some(i + 1),
            None => None,
        }
    }
}

/// The list of settings after a setting is put into it: the setting
/// replaces the first entry for the same setting, or is appended.
pub open spec fn put_setting(lgpos: Seq<LgpoView>, e: LgpoView) -> Seq<LgpoView> {
    match first_same_setting(lgpos, e) {
        Some(i) => lgpos.update(i, e),
        None => lgpos.push(e),
    }
}

/// The current value of a setting in a list of settings: the first entry
/// for the same setting, else the setting with the `DELETE` action.
pub open spec fn setting_current_raw(lgpos: Seq<LgpoView>, e: LgpoView) -> crate::raw::RawView {
    match first_same_setting(lgpos, e) {
        Some(i) => lgpo_to_raw(lgpos[i], false),
        None => lgpo_to_raw(LgpoView { action: ActionView::Delete, ..e }, false),
    }
}

/// The first entry for a setting, as `first_same_setting` finds it, is the
/// first that names the same setting.
pub proof fn lemma_first_same_setting(lgpos: Seq<LgpoView>, e: LgpoView)
    ensures
        first_same_setting(lgpos, e) matches Some(i) ==> 0 <= i < lgpos.len() && same_setting(
            lgpos[i],
            e,
        ) && forall|j: int| 0 <= j < i ==> !same_setting(#[trigger] lgpos[j], e),
        first_same_setting(lgpos, e) is None ==> forall|j: int|
            0 <= j < lgpos.len() ==> !same_setting(#[trigger] lgpos[j], e),
    decreases lgpos.len(),
{
    if lgpos.len() > 0 && !same_setting(lgpos[0], e) {
        lemma_first_same_setting(lgpos.drop_first(), e);
        assert forall|j: int| 1 <= j < lgpos.len() implies lgpos[j] == lgpos.drop_first()[j - 1] by {}
    }
}

/// An entry for a setting, with no entry for it before, is the one
/// `first_same_setting` finds.
proof fn lemma_first_same_setting_at(lgpos: Seq<LgpoView>, e: LgpoView, i: int)
    requires
        0 <= i < lgpos.len(),
        same_setting(lgpos[i], e),
        forall|j: int| 0 <= j < i ==> !same_setting(#[trigger] lgpos[j], e),
    ensures
        first_same_setting(lgpos, e) == Some(i),
    decreases i,
{
    if i > 0 {
        assert(!same_setting(lgpos[0], e));
        assert forall|j: int| 0 <= j < i - 1 implies !same_setting(#[trigger] lgpos.drop_first()[j], e) by {
            assert(lgpos.drop_first()[j] == lgpos[j + 1]);
        }
        lemma_first_same_setting_at(lgpos.drop_first(), e, i - 1);
    }
}

/// A setting put into a list of settings is then its current value there:
/// applying an `lgpo` rule and reading it back gives the rule.
pub proof fn lemma_execute_then_current(lgpos: Seq<LgpoView>, e: LgpoView)
    ensures
        setting_current_raw(put_setting(lgpos, e), e) == lgpo_to_raw(e, false),
{
    lemma_first_same_setting(lgpos, e);
    let after = put_setting(lgpos, e);
    match first_same_setting(lgpos, e) {
        Some(i) => {
            assert forall|j: int| 0 <= j < i implies !same_setting(#[trigger] after[j], e) by {
                assert(after[j] == lgpos[j]);
            }
            lemma_first_same_setting_at(after, e, i);
        },
        None => {
            assert forall|j: int| 0 <= j < lgpos.len() implies !same_setting(#[trigger] after[j], e) by {
                assert(after[j] == lgpos[j]);
            }
            lemma_first_same_setting_at(after, e, lgpos.len() as int);
        },
    }
}

/// A setting put into a list of settings leaves the current value of every
/// other setting as it was.
pub proof fn lemma_execute_keeps_others(lgpos: Seq<LgpoView>, e: LgpoView, other: LgpoView)
    requires
        !same_setting(other, e),
    ensures
        setting_current_raw(put_setting(lgpos, e), other) == setting_current_raw(lgpos, other),
{
    lemma_first_same_setting(lgpos, e);
    lemma_first_same_setting(lgpos, other);
    let after = put_setting(lgpos, e);
    lemma_first_same_setting(after, other);
    assert forall|j: int| 0 <= j < after.len() && same_setting(#[trigger] after[j], other) implies j < lgpos.len()
        && after[j] == lgpos[j] by {
        if j == lgpos.len() || (first_same_setting(lgpos, e) matches Some(i) && j == i) {
            assert(after[j] == e);
        }
    }
    match first_same_setting(lgpos, other) {
        Some(k) => {
            assert(after[k] == lgpos[k]);
            assert forall|j: int| 0 <= j < k implies !same_setting(#[trigger] after[j], other) by {
                if same_setting(after[j], other) {
                    assert(after[j] == lgpos[j]);
                }
            }
            lemma_first_same_setting_at(after, other, k);
        },
        None => {
            if let Some(k) = first_same_setting(after, other) {
                assert(after[k] == lgpos[k]);
            }
        },
    }
}

fn find_same_setting(lgpos: &Vec<LocalGroupPolicyObject>, e: &LocalGroupPolicyObject) -> (r: Option<
    usize,
>)
    ensures
        match first_same_setting(lgpos.deep_view(), e@) {
            Some(i) => r is Some && r->Some_0 as int == i,
            None => r is None,
        },
        r matches Some(i) ==> i < lgpos@.len(),
{
    let key = crate::raw::to_lowercase(e.registry_key.as_str());
    let vn = crate::raw::to_lowercase(e.value_name.as_str());
    let mut i: usize = 0;
    while i < lgpos.len()
        invariant
            i <= lgpos@.len(),
            key@ == crate::raw::str_lowercase(e.registry_key@),
            vn@ == crate::raw::str_lowercase(e.value_name@),
            forall|j: int| 0 <= j < i ==> !same_setting(#[trigger] lgpos.deep_view()[j], e@),
        decreases lgpos@.len() - i,
    {
        let k2 = crate::raw::to_lowercase(lgpos[i].registry_key.as_str());
        let v2 = crate::raw::to_lowercase(lgpos[i].value_name.as_str());
        assert(lgpos.deep_view()[i as int] == lgpos@[i as int]@);
        if str_eq(k2.as_str(), key.as_str()) && str_eq(v2.as_str(), vn.as_str())
            && lgpos[i].configuration.same(&e.configuration) {
            proof {
                lemma_first_same_setting(lgpos.deep_view(), e@);
                if let Some(k) = first_same_setting(lgpos.deep_view(), e@) {
                    assert(k == i);
                }
            }
            return Some(i);
        }
        i = i + 1;
    }
    proof {
        lemma_first_same_setting(lgpos.deep_view(), e@);
    }
    None
}

impl LocalGroupPolicyObject {
    pub fn to_raw(&self, compare_mode: bool) -> (r: crate::raw::RawMethod)
        ensures
            r@ == lgpo_to_raw(self@, compare_mode),
    {
        let target = if compare_mode {
            crate::raw::to_lowercase(self.registry_key.as_str())
        } else {
            copy_string(&self.registry_key)
        };
        let option1 = if compare_mode {
            crate::raw::to_lowercase(self.value_name.as_str())
        } else {
            copy_string(&self.value_name)
        };
        let r = crate::raw::RawMethod {
            method: crate::raw::lit("lgpo"),
            target,
            action: format_action_exec(&self.action),
            option1,
            option2: string_of(Vec::<char>::new().as_slice()),
            scope: format_configuration_exec(&self.configuration),
        };
        assert(r@.option2 =~= Seq::<char>::empty());
        r
    }

    pub fn from_raw(raw: crate::raw::RawMethod) -> (r: Result<LocalGroupPolicyObject, String>)
        ensures
            rview(r) == lgpo_from_raw(raw@),
    {
        let configuration = match parse_configuration(raw.scope.as_str()) {
            Ok(c) => c,
            Err(e) => return Err(prefixed("Invalid configuration : ", &e)),
        };
        let action = match parse_action(raw.action.as_str()) {
            Ok(a) => a,
            Err(e) => return Err(prefixed("Invalid action : ", &e)),
        };
        Ok(
            LocalGroupPolicyObject {
                configuration,
                action,
                registry_key: raw.target,
                value_name: raw.option1,
            },
        )
    }

    /// Puts this setting into the list of policy settings: it replaces the
    /// first entry for the same setting, or is appended when there is none.
    pub fn execute(&self, lgpos: &mut Vec<LocalGroupPolicyObject>)
        ensures
            final(lgpos).deep_view() == put_setting(old(lgpos).deep_view(), self@),
    {
        proof {
            lemma_first_same_setting(lgpos.deep_view(), self@);
        }
        match find_same_setting(lgpos, self) {
            Some(i) => {
                let ghost before = lgpos.deep_view();
                lgpos.set(i, self.copy());
                assert(lgpos.deep_view() =~= before.update(i as int, self@));
            },
            None => {
                let ghost before = lgpos.deep_view();
                lgpos.push(self.copy());
                assert(lgpos.deep_view() =~= before.push(self@));
            },
        }
    }

    /// The current state of this setting in the list of policy settings:
    /// the first entry for the same setting, or this setting with the
    /// `DELETE` action when there is none.
    pub fn current_value(&self, lgpos: &Vec<LocalGroupPolicyObject>) -> (r: crate::raw::RawMethod)
        ensures
            r@ == setting_current_raw(lgpos.deep_view(), self@),
    {
        proof {
            lemma_first_same_setting(lgpos.deep_view(), self@);
        }
        match find_same_setting(lgpos, self) {
            Some(i) => {
                assert(first_same_setting(lgpos.deep_view(), self@) == Some(i as int));
                assert(lgpos.deep_view()[i as int] == lgpos@[i as int]@);
                let r = lgpos[i].to_raw(false);
                assert(r@ == lgpo_to_raw(lgpos.deep_view()[i as int], false));
                r
            },
            None => {
                let mut e = self.copy();
                e.action = Action::Delete;
                e.to_raw(false)
            },
        }
    }
}

} // verus!

verus! {

// ------------------------------------------------------------------
// What is written is read back
// ------------------------------------------------------------------

/// The configurations that survive being written and read back: all but
/// the named users whose name is empty, ends in whitespace, or names the
/// administrators or the non-administrators in some case.
pub open spec fn configuration_stable(c: ConfigurationView) -> bool {
    match c {
        ConfigurationView::UserNamed(n) => n.len() > 0 && !is_ws(n.last()) && ascii_upper(n)
            != "ADMINISTRATORS"@ && ascii_upper(n) != "NON-ADMINISTRATORS"@,
        _ => true,
    }
}

proof fn lemma_no_colon(s: Seq<char>)
    requires
        forall|i: int| 0 <= i < s.len() ==> s[i] != ':',
    ensures
        split_once_or_all(s, ":"@) == (s, Seq::<char>::empty()),
{
    reveal_strlit(":");
    assert(":"@ =~= seq![':']);
    lemma_find_single_absent(s, ':');
}

proof fn lemma_key_value(k: Seq<char>, v: Seq<char>)
    requires
        k.len() > 0,
        !is_ws(k[0]),
        forall|i: int| 0 <= i < k.len() ==> k[i] != ':',
    ensures
        trim(k + ":"@ + v) == k + ":"@ + trim_end(v),
        split_once_or_all(trim(k + ":"@ + v), ":"@) == (k, trim_end(v)),
{
    reveal_strlit(":");
    assert(":"@ =~= seq![':']);
    let a = k + ":"@;
    assert(a[0] == k[0]);
    assert(a.last() == ':');
    lemma_trim_concat(a, v);
    lemma_split_once_at(k, ':', trim_end(v));
}

/// A configuration that is written and read back is the same configuration.
pub proof fn lemma_configuration_roundtrip(c: ConfigurationView)
    requires
        configuration_stable(c),
    ensures
        parse_configuration_spec(format_configuration(c)) == Ok::<ConfigurationView, Seq<char>>(c),
{
    reveal_strlit("Computer");
    reveal_strlit("COMPUTER");
    reveal_strlit("User");
    reveal_strlit("USER");
    reveal_strlit("User:");
    reveal_strlit("ADMINISTRATORS");
    reveal_strlit("NON-ADMINISTRATORS");
    match c {
        ConfigurationView::Computer => {
            let s = "Computer"@;
            assert(s =~= seq!['C', 'o', 'm', 'p', 'u', 't', 'e', 'r']);
            lemma_trim_keeps(s);
            lemma_no_colon(s);
            assert(ascii_upper(s) =~= "COMPUTER"@);
        },
        ConfigurationView::User => {
            let s = "User"@;
            assert(s =~= seq!['U', 's', 'e', 'r']);
            lemma_trim_keeps(s);
            lemma_no_colon(s);
            assert(ascii_upper(s) =~= "USER"@);
            assert(ascii_upper(s) != "COMPUTER"@);
            assert("ADMINISTRATORS"@.len() == 14);
            assert("NON-ADMINISTRATORS"@.len() == 18);
            assert(Seq::<char>::empty().len() == 0);
        },
        ConfigurationView::UserNamed(n) => {
            let k = "User"@;
            assert(k =~= seq!['U', 's', 'e', 'r']);
            assert("User:"@ =~= k + ":"@) by {
                reveal_strlit(":");
            }
            lemma_key_value(k, n);
            lemma_trim_end_keeps(n);
            assert(ascii_upper(k) =~= "USER"@);
            assert(ascii_upper(k) != "COMPUTER"@);
            assert(format_configuration(c) == k + ":"@ + n);
        },
        ConfigurationView::UserAdministrators => {
            reveal_strlit("User:Administrators");
            reveal_strlit("Administrators");
            let k = "User"@;
            let n = "Administrators"@;
            assert(k =~= seq!['U', 's', 'e', 'r']);
            assert(n =~= seq!['A', 'd', 'm', 'i', 'n', 'i', 's', 't', 'r', 'a', 't', 'o', 'r', 's']);
            assert("User:Administrators"@ =~= k + ":"@ + n) by {
                reveal_strlit(":");
            }
            lemma_key_value(k, n);
            lemma_trim_end_keeps(n);
            assert(ascii_upper(k) =~= "USER"@);
            assert(ascii_upper(k) != "COMPUTER"@);
            assert(ascii_upper(n) =~= "ADMINISTRATORS"@);
        },
        ConfigurationView::UserNonAdministrators => {
            reveal_strlit("User:Non-Administrators");
            reveal_strlit("Non-Administrators");
            let k = "User"@;
            let n = "Non-Administrators"@;
            assert(k =~= seq!['U', 's', 'e', 'r']);
            assert(n =~= seq![
                'N', 'o', 'n', '-', 'A', 'd', 'm', 'i', 'n', 'i', 's', 't', 'r', 'a', 't', 'o', 'r', 's',
            ]);
            assert("User:Non-Administrators"@ =~= k + ":"@ + n) by {
                reveal_strlit(":");
            }
            lemma_key_value(k, n);
            lemma_trim_end_keeps(n);
            assert(ascii_upper(k) =~= "USER"@);
            assert(ascii_upper(k) != "COMPUTER"@);
            assert(ascii_upper(n) =~= "NON-ADMINISTRATORS"@);
            assert(ascii_upper(n) != "ADMINISTRATORS"@);
        },
    }
}

} // verus!

verus! {

/// The actions that survive being written and read back: the text of a
/// string value loses its trailing whitespace and its escapes, and the
/// subkeys of `DELETEKEYS` are read from the value name line instead.
pub open spec fn action_stable(a: ActionView) -> bool {
    match a {
        ActionView::Sz(s) => unescape(trim_end(s)) == s,
        ActionView::ExSz(s) => unescape(trim_end(s)) == s,
        ActionView::MultiSz(v) => split(unescape(trim_end(join(v, multi_sep()))), multi_sep()) == v,
        ActionView::Binary(b) => b.len() > 0,
        ActionView::DeleteKeys(k) => k.len() == 0,
        _ => true,
    }
}

pub proof fn lemma_decimal_chars(n: nat)
    ensures
        decimal(n).len() > 0,
        forall|i: int| 0 <= i < decimal(n).len() ==> 0x30 <= #[trigger] (decimal(n)[i] as u32) <= 0x39,
    decreases n,
{
    if n >= 10 {
        lemma_decimal_chars(n / 10);
        let d = decimal(n / 10);
        assert forall|i: int| 0 <= i < decimal(n).len() implies 0x30 <= #[trigger] (decimal(n)[i] as u32) <= 0x39 by {
            if i < d.len() {
                assert(decimal(n)[i] == d[i]);
            }
        }
    }
}

pub proof fn lemma_number_facts(n: nat, max: nat)
    requires
        n <= max,
    ensures
        parse_number_spec(decimal(n), max) == Ok::<nat, Seq<char>>(n),
        decimal(n).len() > 0,
        !is_ws(decimal(n)[0]),
        !is_ws(decimal(n).last()),
        forall|i: int| 0 <= i < decimal(n).len() ==> decimal(n)[i] != ':',
{
    lemma_decimal_chars(n);
    let d = decimal(n);
    assert((d.last() as u32) <= 0x39);
    assert((d[0] as u32) <= 0x39);
    reveal_strlit("0x");
    if d.len() >= 2 {
        assert((d[1] as u32) <= 0x39);
        assert(d.take(2)[1] == d[1]);
        assert(d.take(2) != "0x"@);
    }
    assert(strip_prefix(d, "0x"@) is None);
    crate::num::lemma_decimal_roundtrip(n, max);
    assert forall|i: int| 0 <= i < d.len() implies d[i] != ':' by {
        assert(0x30 <= (d[i] as u32) <= 0x39);
    }
}

proof fn lemma_hex2_chars(x: u8)
    ensures
        hex2(x).len() == 2,
        !is_ws(hex2(x)[0]),
        !is_ws(hex2(x)[1]),
        hex2(x)[0] != ',',
        hex2(x)[1] != ',',
        trim(hex2(x)) == hex2(x),
        parse_uint(hex2(x), 16, 255) == Ok::<nat, IntErrorKind>(x as nat),
{
    let h = hex2(x);
    crate::num::lemma_digit_roundtrip((x / 16) as nat, 16);
    crate::num::lemma_digit_roundtrip((x % 16) as nat, 16);
    lemma_trim_keeps(h);
    assert(h.drop_first() =~= seq![h[1]]);
    assert(seq![h[1]].drop_first() =~= Seq::<char>::empty());
    assert((x / 16) * 16 + x % 16 == x);
    let d0 = (x / 16) as nat;
    let d1 = (x % 16) as nat;
    assert(parse_digits(d0 * 16 + d1, Seq::<char>::empty(), 16, 255) == Ok::<nat, IntErrorKind>(
        x as nat,
    ));
    assert(parse_digits(d0, seq![h[1]], 16, 255) == Ok::<nat, IntErrorKind>(x as nat));
    assert(parse_digits(0, h, 16, 255) == Ok::<nat, IntErrorKind>(x as nat));
}

proof fn lemma_hex_bytes(b: Seq<u8>)
    ensures
        parse_hex_bytes(b.map_values(|x: u8| hex2(x))) == Some(b),
    decreases b.len(),
{
    let hs = b.map_values(|x: u8| hex2(x));
    if b.len() > 0 {
        lemma_hex2_chars(b[0]);
        assert(hs[0] == hex2(b[0]));
        assert(hs.drop_first() =~= b.drop_first().map_values(|x: u8| hex2(x)));
        lemma_hex_bytes(b.drop_first());
        assert(seq![b[0]] + b.drop_first() =~= b);
    } else {
        assert(hs =~= Seq::<Seq<char>>::empty());
    }
}

pub proof fn lemma_join_last_pub(parts: Seq<Seq<char>>, sep: Seq<char>)
    requires
        parts.len() > 0,
        parts.last().len() > 0,
    ensures
        join(parts, sep).len() > 0,
        join(parts, sep).last() == parts.last().last(),
{
    lemma_join_last(parts, sep);
}

proof fn lemma_join_last(parts: Seq<Seq<char>>, sep: Seq<char>)
    requires
        parts.len() > 0,
        parts.last().len() > 0,
    ensures
        join(parts, sep).len() > 0,
        join(parts, sep).last() == parts.last().last(),
{
}

proof fn lemma_keys()
    ensures
        "DELETE"@ =~= seq!['D', 'E', 'L', 'E', 'T', 'E'],
        "CREATEKEY"@ =~= seq!['C', 'R', 'E', 'A', 'T', 'E', 'K', 'E', 'Y'],
        "DELETEALLVALUES"@ =~= seq!['D', 'E', 'L', 'E', 'T', 'E', 'A', 'L', 'L', 'V', 'A', 'L', 'U', 'E', 'S'],
        "DELETEKEYS"@ =~= seq!['D', 'E', 'L', 'E', 'T', 'E', 'K', 'E', 'Y', 'S'],
        "CLEAR"@ =~= seq!['C', 'L', 'E', 'A', 'R'],
        "DWORD"@ =~= seq!['D', 'W', 'O', 'R', 'D'],
        "QWORD"@ =~= seq!['Q', 'W', 'O', 'R', 'D'],
        "SZ"@ =~= seq!['S', 'Z'],
        "EXSZ"@ =~= seq!['E', 'X', 'S', 'Z'],
        "MULTISZ"@ =~= seq!['M', 'U', 'L', 'T', 'I', 'S', 'Z'],
        "BINARY"@ =~= seq!['B', 'I', 'N', 'A', 'R', 'Y'],
        ":"@ =~= seq![':'],
        "DWORD:"@ =~= "DWORD"@ + ":"@,
        "QWORD:"@ =~= "QWORD"@ + ":"@,
        "SZ:"@ =~= "SZ"@ + ":"@,
        "EXSZ:"@ =~= "EXSZ"@ + ":"@,
        "MULTISZ:"@ =~= "MULTISZ"@ + ":"@,
        "BINARY:"@ =~= "BINARY"@ + ":"@,
        "DELETEKEYS:"@ =~= "DELETEKEYS"@ + ":"@,
        ","@ =~= seq![','],
{
    reveal_strlit("DELETE");
    reveal_strlit("CREATEKEY");
    reveal_strlit("DELETEALLVALUES");
    reveal_strlit("DELETEKEYS");
    reveal_strlit("CLEAR");
    reveal_strlit("DWORD");
    reveal_strlit("QWORD");
    reveal_strlit("SZ");
    reveal_strlit("EXSZ");
    reveal_strlit("MULTISZ");
    reveal_strlit("BINARY");
    reveal_strlit(":");
    reveal_strlit("DWORD:");
    reveal_strlit("QWORD:");
    reveal_strlit("SZ:");
    reveal_strlit("EXSZ:");
    reveal_strlit("MULTISZ:");
    reveal_strlit("BINARY:");
    reveal_strlit("DELETEKEYS:");
    reveal_strlit(",");
}

proof fn lemma_upper_keeps(k: Seq<char>)
    requires
        forall|i: int| 0 <= i < k.len() ==> 0x41 <= #[trigger] (k[i] as u32) <= 0x5a,
    ensures
        ascii_upper(k) == k,
        k.len() > 0 ==> !is_ws(k[0]) && !is_ws(k.last()),
        forall|i: int| 0 <= i < k.len() ==> k[i] != ':',
{
    assert(ascii_upper(k) =~= k);
    if k.len() > 0 {
        assert(0x41 <= (k.last() as u32) <= 0x5a);
    }
    assert forall|i: int| 0 <= i < k.len() implies k[i] != ':' by {
        assert(0x41 <= (k[i] as u32) <= 0x5a);
    }
}

/// The subkeys of `DELETEKEYS` are never read back from its action line.
pub proof fn lemma_delete_keys_reread(k: Seq<Seq<char>>)
    ensures
        parse_action_spec(format_action(ActionView::DeleteKeys(k))) == Ok::<ActionView, Seq<char>>(
            ActionView::DeleteKeys(seq![]),
        ),
{
    lemma_keys();
    let key = "DELETEKEYS"@;
    lemma_upper_keeps(key);
    lemma_key_value(key, join(k, ";"@));
}

/// An action that is written and read back is the same action.
pub proof fn lemma_action_roundtrip(a: ActionView)
    requires
        action_stable(a),
    ensures
        parse_action_spec(format_action(a)) == Ok::<ActionView, Seq<char>>(a),
{
    lemma_keys();
    match a {
        ActionView::Delete => {
            lemma_upper_keeps("DELETE"@);
            lemma_trim_keeps("DELETE"@);
            lemma_no_colon("DELETE"@);
        },
        ActionView::CreateKey => {
            lemma_upper_keeps("CREATEKEY"@);
            lemma_trim_keeps("CREATEKEY"@);
            lemma_no_colon("CREATEKEY"@);
        },
        ActionView::DeleteAllValues => {
            lemma_upper_keeps("DELETEALLVALUES"@);
            lemma_trim_keeps("DELETEALLVALUES"@);
            lemma_no_colon("DELETEALLVALUES"@);
        },
        ActionView::Clear => {
            lemma_upper_keeps("CLEAR"@);
            lemma_trim_keeps("CLEAR"@);
            lemma_no_colon("CLEAR"@);
        },
        ActionView::DeleteKeys(k) => {
            lemma_delete_keys_reread(k);
            assert(k =~= Seq::<Seq<char>>::empty());
        },
        ActionView::Dword(n) => {
            let key = "DWORD"@;
            lemma_upper_keeps(key);
            lemma_number_facts(n as nat, u64::MAX as nat);
            lemma_key_value(key, decimal(n as nat));
            lemma_trim_end_keeps(decimal(n as nat));
        },
        ActionView::Qword(n) => {
            let key = "QWORD"@;
            lemma_upper_keeps(key);
            lemma_number_facts(n as nat, u128::MAX as nat);
            lemma_key_value(key, decimal(n as nat));
            lemma_trim_end_keeps(decimal(n as nat));
        },
        ActionView::Sz(s) => {
            let key = "SZ"@;
            lemma_upper_keeps(key);
            lemma_key_value(key, s);
        },
        ActionView::ExSz(s) => {
            let key = "EXSZ"@;
            lemma_upper_keeps(key);
            lemma_key_value(key, s);
        },
        ActionView::MultiSz(v) => {
            let key = "MULTISZ"@;
            lemma_upper_keeps(key);
            lemma_key_value(key, join(v, multi_sep()));
        },
        ActionView::Binary(b) => {
            let key = "BINARY"@;
            lemma_upper_keeps(key);
            let hs = b.map_values(|x: u8| hex2(x));
            let j = join(hs, ","@);
            lemma_hex2_chars(b.last());
            assert(hs.last() == hex2(b.last()));
            lemma_join_last(hs, ","@);
            lemma_trim_end_keeps(j);
            lemma_key_value(key, j);
            assert forall|i: int, t: int| 0 <= i < hs.len() && 0 <= t < hs[i].len() implies hs[i][t]
                != ',' by {
                lemma_hex2_chars(b[i]);
            }
            lemma_split_join_single(hs, ',');
            lemma_hex_bytes(b);
        },
    }
}

} // verus!

verus! {

/// The entries that survive being written and read back: a stable
/// configuration; a stable action, or `DELETEKEYS` of the subkeys that the
/// value name names; and a registry key and value name that are neither
/// blank nor comments.
pub open spec fn entry_stable(e: LgpoView) -> bool {
    &&& configuration_stable(e.configuration)
    &&& match e.action {
        ActionView::DeleteKeys(k) => k == subkeys_of(e.value_name),
        _ => action_stable(e.action),
    }
    &&& !is_skipped(e.registry_key)
    &&& !is_skipped(e.value_name)
}

proof fn lemma_not_skipped(x: Seq<char>)
    requires
        x.len() > 0,
        !is_ws(x[0]),
        x[0] != ';',
    ensures
        !is_skipped(x),
{
    lemma_trim_first(x);
    reveal_strlit(";");
    if starts_with(trim(x), ";"@) {
        assert(trim(x).take(1)[0] == trim(x)[0]);
    }
}

proof fn lemma_configuration_line(c: ConfigurationView)
    ensures
        !is_skipped(format_configuration(c)),
{
    reveal_strlit("Computer");
    reveal_strlit("User");
    reveal_strlit("User:Administrators");
    reveal_strlit("User:Non-Administrators");
    reveal_strlit("User:");
    let f = format_configuration(c);
    match c {
        ConfigurationView::UserNamed(n) => {
            assert(f[0] == 'U');
        },
        _ => {},
    }
    lemma_not_skipped(f);
}

proof fn lemma_action_line(a: ActionView)
    ensures
        !is_skipped(format_action(a)),
{
    lemma_keys();
    reveal_strlit("DELETE");
    reveal_strlit("CREATEKEY");
    reveal_strlit("DELETEALLVALUES");
    reveal_strlit("CLEAR");
    let f = format_action(a);
    assert(f.len() > 0 && 0x41 <= (f[0] as u32) <= 0x5a);
    lemma_not_skipped(f);
}

proof fn lemma_next_data(x: Seq<char>, r: Seq<Seq<char>>)
    requires
        !is_skipped(x),
    ensures
        next_data_line(seq![x] + r) == Some((x, r)),
{
    assert((seq![x] + r)[0] == x);
    assert((seq![x] + r).drop_first() =~= r);
}

proof fn lemma_lines_from(es: Seq<LgpoView>, first: bool)
    requires
        forall|i: int| 0 <= i < es.len() ==> entry_stable(#[trigger] es[i]),
    ensures
        parse_all(lines_from(es, first)) == Ok::<Seq<LgpoView>, LgpoErrorView>(es),
    decreases es.len(),
{
    let lines = lines_from(es, first);
    if es.len() == 0 {
        assert(next_data_line(lines) is None);
        assert(es =~= Seq::<LgpoView>::empty());
    } else {
        let e = es[0];
        assert(entry_stable(e));
        let rest = lines_from(es.drop_first(), false);
        let cl = format_configuration(e.configuration);
        let al = format_action(e.action);
        lemma_configuration_line(e.configuration);
        lemma_action_line(e.action);
        let body = seq![cl, e.registry_key, e.value_name, al] + rest;
        assert(entry_lines(e) + rest =~= body);
        assert(next_data_line(lines) == next_data_line(body)) by {
            if !first {
                assert(lines =~= seq![Seq::<char>::empty()] + body);
                assert(trim(Seq::<char>::empty()) =~= Seq::<char>::empty());
                assert(lines.drop_first() =~= body);
            } else {
                assert(lines =~= body);
            }
        }
        let r1 = seq![e.registry_key, e.value_name, al] + rest;
        let r2 = seq![e.value_name, al] + rest;
        let r3 = seq![al] + rest;
        assert(body =~= seq![cl] + r1);
        assert(r1 =~= seq![e.registry_key] + r2);
        assert(r2 =~= seq![e.value_name] + r3);
        lemma_next_data(cl, r1);
        lemma_next_data(e.registry_key, r2);
        lemma_next_data(e.value_name, r3);
        lemma_next_data(al, rest);
        lemma_configuration_roundtrip(e.configuration);
        match e.action {
            ActionView::DeleteKeys(k) => {
                lemma_delete_keys_reread(k);
            },
            _ => {
                lemma_action_roundtrip(e.action);
            },
        }
        let a2 = with_subkeys(e.action, e.value_name);
        assert(a2 == e.action);
        let e1 = LgpoView {
            configuration: e.configuration,
            registry_key: e.registry_key,
            value_name: e.value_name,
            action: a2,
        };
        assert(parse_entry_spec(lines) == Ok::<
            Option<(LgpoView, Seq<Seq<char>>)>,
            LgpoErrorView,
        >(Some((e1, rest))));
        assert(reload(e1) == Ok::<LgpoView, LgpoErrorView>(e));
        assert forall|i: int| 0 <= i < es.drop_first().len() implies entry_stable(
            #[trigger] es.drop_first()[i],
        ) by {
            assert(es.drop_first()[i] == es[i + 1]);
        }
        lemma_lines_from(es.drop_first(), false);
        assert(seq![e] + es.drop_first() =~= es);
        assert(parse_all(lines) == match parse_all(rest) {
            Ok(x) => Ok(seq![e] + x),
            Err(x) => Err::<Seq<LgpoView>, LgpoErrorView>(x),
        });
    }
}

/// Whether no character of a string is a backslash.
pub open spec fn no_backslash(s: Seq<char>) -> bool {
    forall|j: int| 0 <= j < s.len() ==> s[j] != '\\'
}

/// The actions that an LGPO text line carries through unchanged: strings
/// that hold no backslash and, for the last one, end in no whitespace; a
/// non-empty binary value; `DELETEKEYS` of no subkeys on its action line;
/// and every action without data.
pub open spec fn plain_action(a: ActionView) -> bool {
    match a {
        ActionView::Sz(s) => no_backslash(s) && (s.len() == 0 || !is_ws(s.last())),
        ActionView::ExSz(s) => no_backslash(s) && (s.len() == 0 || !is_ws(s.last())),
        ActionView::MultiSz(v) => v.len() > 0 && (forall|i: int| 0 <= i < v.len() ==> no_backslash(#[trigger] v[i]))
            && (v.last().len() == 0 || !is_ws(v.last().last())),
        ActionView::Binary(b) => b.len() > 0,
        ActionView::DeleteKeys(k) => k.len() == 0,
        _ => true,
    }
}

proof fn lemma_unescape_plain(s: Seq<char>)
    requires
        no_backslash(s),
    ensures
        unescape(s) == s,
    decreases s.len(),
{
    if s.len() > 0 {
        assert(s[0] != '\\');
        lemma_unescape_plain(s.drop_first());
        assert(seq![s[0]] + s.drop_first() =~= s);
    }
}

proof fn lemma_unescape_sep(a: Seq<char>, r: Seq<char>)
    requires
        no_backslash(a),
    ensures
        unescape(a + multi_sep() + r) == a + multi_sep() + unescape(r),
    decreases a.len(),
{
    let s = a + multi_sep() + r;
    if a.len() == 0 {
        assert(s =~= multi_sep() + r);
        assert(s[0] == '\\' && s[1] == '0');
        assert(s.drop_first() =~= seq!['0'] + r);
        assert((seq!['0'] + r).drop_first() =~= r);
        assert(unescape(seq!['0'] + r) == seq!['0'] + unescape(r));
        assert(multi_sep() + unescape(r) =~= seq!['\\'] + (seq!['0'] + unescape(r)));
        assert(a + multi_sep() + unescape(r) =~= multi_sep() + unescape(r));
    } else {
        assert(s[0] == a[0]);
        assert(s.drop_first() =~= a.drop_first() + multi_sep() + r);
        lemma_unescape_sep(a.drop_first(), r);
        assert(seq![a[0]] + (a.drop_first() + multi_sep() + unescape(r)) =~= a + multi_sep() + unescape(r));
    }
}

proof fn lemma_unescape_join(v: Seq<Seq<char>>)
    requires
        forall|i: int| 0 <= i < v.len() ==> no_backslash(#[trigger] v[i]),
    ensures
        unescape(join(v, multi_sep())) == join(v, multi_sep()),
    decreases v.len(),
{
    if v.len() == 1 {
        assert(no_backslash(v[0]));
        lemma_unescape_plain(v[0]);
    } else if v.len() > 1 {
        let rest = v.drop_first();
        assert(v =~= seq![v[0]] + rest);
        lemma_join_front(v[0], rest, multi_sep());
        assert(no_backslash(v[0]));
        assert forall|i: int| 0 <= i < rest.len() implies no_backslash(#[trigger] rest[i]) by {
            assert(rest[i] == v[i + 1]);
        }
        lemma_unescape_join(rest);
        lemma_unescape_sep(v[0], join(rest, multi_sep()));
    }
}

/// An action whose strings hold no backslash, the last ending in no
/// whitespace, is carried through its LGPO text line unchanged: it is
/// stable, and written and read back it is the same action.
pub proof fn lemma_plain_action_stable(a: ActionView)
    requires
        plain_action(a),
    ensures
        action_stable(a),
        parse_action_spec(format_action(a)) == Ok::<ActionView, Seq<char>>(a),
{
    match a {
        ActionView::Sz(s) => {
            lemma_unescape_plain(s);
            if s.len() > 0 {
                lemma_trim_end_keeps(s);
            }
        },
        ActionView::ExSz(s) => {
            lemma_unescape_plain(s);
            if s.len() > 0 {
                lemma_trim_end_keeps(s);
            }
        },
        ActionView::MultiSz(v) => {
            let j = join(v, multi_sep());
            if v.len() == 1 {
                assert(j == v[0]);
            } else {
                assert(j == join(v.drop_last(), multi_sep()) + multi_sep() + v.last());
                if v.last().len() == 0 {
                    assert(j.last() == '0');
                } else {
                    assert(j.last() == v.last().last());
                }
            }
            if j.len() > 0 {
                lemma_trim_end_keeps(j);
            }
            lemma_unescape_join(v);
            assert forall|i: int, k: int| 0 <= i < v.len() && 0 <= k < v[i].len() implies v[i][k]
                != multi_sep()[0] by {
                assert(no_backslash(v[i]));
            }
            lemma_split_join_sep(v, multi_sep());
        },
        _ => {},
    }
    lemma_action_roundtrip(a);
}

/// A number written as `0x` and its hexadecimal digits, in lower or upper
/// case, reads back as that number, for the largest value `max` of the
/// number's type.
pub proof fn lemma_hex_number_roundtrip(n: nat, max: nat, upper: bool)
    requires
        n <= max,
    ensures
        parse_number_spec("0x"@ + crate::num::hex_text(n, upper), max) == Ok::<nat, Seq<char>>(n),
{
    reveal_strlit("0x");
    let h = crate::num::hex_text(n, upper);
    let s = "0x"@ + h;
    assert(s.take(2) =~= "0x"@);
    assert(s.skip(2) =~= h);
    assert(strip_prefix(s, "0x"@) == Some(h));
    crate::num::lemma_hex_roundtrip(n, max, upper);
}

/// A DWORD written as `0x` and its hexadecimal digits (`{:x}` or `{:X}`)
/// reads back as the same number.
pub proof fn lemma_dword_hex_roundtrip(n: u64, upper: bool)
    ensures
        parse_number_spec("0x"@ + crate::num::hex_text(n as nat, upper), u64::MAX as nat) == Ok::<
            nat,
            Seq<char>,
        >(n as nat),
{
    lemma_hex_number_roundtrip(n as nat, u64::MAX as nat, upper);
}

/// A QWORD written as `0x` and its hexadecimal digits (`{:x}` or `{:X}`)
/// reads back as the same number.
pub proof fn lemma_qword_hex_roundtrip(n: u128, upper: bool)
    ensures
        parse_number_spec("0x"@ + crate::num::hex_text(n as nat, upper), u128::MAX as nat) == Ok::<
            nat,
            Seq<char>,
        >(n as nat),
{
    lemma_hex_number_roundtrip(n as nat, u128::MAX as nat, upper);
}

/// A setting read from its raw method is the setting written, where its
/// configuration and action read back from their text.
pub proof fn lemma_lgpo_raw_roundtrip(e: LgpoView)
    requires
        configuration_stable(e.configuration),
        action_stable(e.action),
    ensures
        lgpo_from_raw(lgpo_to_raw(e, false)) == Ok::<LgpoView, Seq<char>>(e),
{
    lemma_configuration_roundtrip(e.configuration);
    lemma_action_roundtrip(e.action);
}

/// Entries written as LGPO text are read back as they were, when every
/// entry is stable.
pub proof fn lemma_entries_roundtrip(es: Seq<LgpoView>)
    requires
        forall|i: int| 0 <= i < es.len() ==> entry_stable(#[trigger] es[i]),
    ensures
        parse_all(entries_lines(es)) == Ok::<Seq<LgpoView>, LgpoErrorView>(es),
{
    lemma_lines_from(es, true);
}

} // verus!

verus! {

// ------------------------------------------------------------------
// Importing into the local policy
// ------------------------------------------------------------------

/// What is imported into the local policy with `LGPO.exe`.
#[derive(Debug, Clone, Copy, PartialEq, Eq, Structural)]
pub enum LGPOCommands {
    SecurityTemplate,
    AdvancedAuditing,
    LGPOText,
}

/// The arguments of `LGPO.exe` that import a file of a kind.
pub open spec fn import_args_spec(cmd: LGPOCommands, path: Seq<char>) -> Seq<Seq<char>> {
    let switch = match cmd {
        LGPOCommands::SecurityTemplate => "/s"@,
        LGPOCommands::AdvancedAuditing => "/ac"@,
        LGPOCommands::LGPOText => "/t"@,
    };
    seq![switch, path, "/v"@]
}

/// The arguments of `LGPO.exe` that import a file of a kind.
pub fn import_args(cmd: LGPOCommands, path: &str) -> (r: Vec<String>)
    ensures
        r.deep_view() == import_args_spec(cmd, path@),
{
    let switch = match cmd {
        LGPOCommands::SecurityTemplate => "/s",
        LGPOCommands::AdvancedAuditing => "/ac",
        LGPOCommands::LGPOText => "/t",
    };
    let r = vec![crate::raw::lit(switch), crate::raw::lit(path), crate::raw::lit("/v")];
    assert(r.deep_view() =~= import_args_spec(cmd, path@));
    r
}

/// A locale whose success and error texts are known, which the check of a
/// security template or audit import needs.
pub open spec fn import_checkable(cmd: LGPOCommands, locale: Seq<char>) -> bool {
    cmd != LGPOCommands::LGPOText ==> crate::i18n::is_fr(locale)
}

/// Whether an import worked, from what `LGPO.exe` printed: a template
/// import prints the locale's "done" text, an audit import prints no error
/// code, and a text import prints `POLICY SAVED.`.
pub open spec fn import_outcome_spec(cmd: LGPOCommands, locale: Seq<char>, stdout: Seq<char>, stderr: Seq<char>) -> Result<(), Seq<char>> {
    match cmd {
        LGPOCommands::SecurityTemplate => if crate::text::contains(stdout, crate::i18n::secedit_done(locale)->0) {
            Ok(())
        } else {
            Err("Failed to import security template"@)
        },
        LGPOCommands::AdvancedAuditing => if crate::text::contains(stderr, crate::i18n::auditpol_error(locale)->0) {
            Err("Failed to import advanced auditing settings"@)
        } else {
            Ok(())
        },
        LGPOCommands::LGPOText => if crate::text::contains(stdout, "POLICY SAVED."@) {
            Ok(())
        } else {
            Err("Failed to import LGPO text"@)
        },
    }
}

/// Whether an import worked.
pub fn import_outcome(cmd: LGPOCommands, locale: &str, stdout: &str, stderr: &str) -> (r: Result<(), String>)
    requires
        import_checkable(cmd, locale@),
    ensures
        match import_outcome_spec(cmd, locale@, stdout@, stderr@) {
            Ok(_) => r is Ok,
            Err(e) => r is Err && r->Err_0@ == e,
        },
{
    let out = chars_of(stdout);
    let err = chars_of(stderr);
    match cmd {
        LGPOCommands::SecurityTemplate => {
            let done = crate::i18n::secedit_done_text(locale).unwrap();
            if crate::text::contains_chars(out.as_slice(), chars_of(done).as_slice()) {
                Ok(())
            } else {
                Err(crate::raw::lit("Failed to import security template"))
            }
        },
        LGPOCommands::AdvancedAuditing => {
            let indicator = crate::i18n::auditpol_error_text(locale).unwrap();
            if crate::text::contains_chars(err.as_slice(), chars_of(indicator).as_slice()) {
                Err(crate::raw::lit("Failed to import advanced auditing settings"))
            } else {
                Ok(())
            }
        },
        LGPOCommands::LGPOText => {
            if crate::text::contains_chars(out.as_slice(), chars_of("POLICY SAVED.").as_slice()) {
                Ok(())
            } else {
                Err(crate::raw::lit("Failed to import LGPO text"))
            }
        },
    }
}

/// Reading escapes: a backslash and `n` become one newline, a backslash
/// and `r` one carriage return, two backslashes one backslash, whatever
/// follows; any other character is kept and reading goes on after it.
pub proof fn lemma_unescape_escapes(s: Seq<char>, c: char)
    ensures
        unescape(seq!['\\', 'n'] + s) == seq!['\n'] + unescape(s),
        unescape(seq!['\\', 'r'] + s) == seq!['\r'] + unescape(s),
        unescape(seq!['\\', '\\'] + s) == seq!['\\'] + unescape(s),
        c != '\\' ==> unescape(seq![c] + s) == seq![c] + unescape(s),
        unescape(seq!['\\']) == seq!['\\'],
        unescape(seq![]) == Seq::<char>::empty(),
{
    assert((seq!['\\', 'n'] + s).skip(2) =~= s);
    assert((seq!['\\', 'r'] + s).skip(2) =~= s);
    assert((seq!['\\', '\\'] + s).skip(2) =~= s);
    assert((seq![c] + s).drop_first() =~= s);
    assert(unescape(Seq::<char>::empty()) =~= Seq::<char>::empty());
    assert(seq!['\\'].drop_first() =~= Seq::<char>::empty());
    assert(seq!['\\'] + Seq::<char>::empty() =~= seq!['\\']);
}

/// Reading a text whose only escape is a backslash and `n` between two
/// runs without backslashes gives the text with a newline there.
pub proof fn lemma_unescape_newline(a: Seq<char>, b: Seq<char>)
    requires
        no_backslash(a),
        no_backslash(b),
    ensures
        unescape(a + seq!['\\', 'n'] + b) == a + seq!['\n'] + b,
    decreases a.len(),
{
    if a.len() == 0 {
        assert(a + seq!['\\', 'n'] + b =~= seq!['\\', 'n'] + b);
        lemma_unescape_escapes(b, 'x');
        lemma_unescape_plain(b);
        assert(a + seq!['\n'] + b =~= seq!['\n'] + b);
    } else {
        let t = a.drop_first();
        assert(a + seq!['\\', 'n'] + b =~= seq![a[0]] + (t + seq!['\\', 'n'] + b));
        lemma_unescape_escapes(t + seq!['\\', 'n'] + b, a[0]);
        lemma_unescape_newline(t, b);
        assert(a + seq!['\n'] + b =~= seq![a[0]] + (t + seq!['\n'] + b));
    }
}

/// An `SZ:` action line holds the string read from the rest of the line,
/// trailing whitespace dropped and escapes turned into the characters
/// they name.
pub proof fn lemma_sz_line(v: Seq<char>)
    ensures
        parse_action_spec("SZ:"@ + v) == Ok::<ActionView, Seq<char>>(ActionView::Sz(unescape(trim_end(v)))),
{
    lemma_keys();
    let key = "SZ"@;
    lemma_upper_keeps(key);
    lemma_key_value(key, v);
    assert("SZ:"@ + v =~= key + ":"@ + v);
}

/// An `SZ:` line holding a backslash and `n` between two runs without
/// backslashes (the second not ending in whitespace) is read as the
/// string with a newline there.
pub proof fn lemma_sz_newline(a: Seq<char>, b: Seq<char>)
    requires
        no_backslash(a),
        no_backslash(b),
        b.len() > 0,
        !is_ws(b.last()),
    ensures
        parse_action_spec("SZ:"@ + a + seq!['\\', 'n'] + b) == Ok::<ActionView, Seq<char>>(
            ActionView::Sz(a + seq!['\n'] + b),
        ),
{
    let v = a + seq!['\\', 'n'] + b;
    assert(v.last() == b.last());
    lemma_trim_end_keeps(v);
    lemma_unescape_newline(a, b);
    lemma_sz_line(v);
    assert("SZ:"@ + a + seq!['\\', 'n'] + b =~= "SZ:"@ + v);
}

} // verus!
