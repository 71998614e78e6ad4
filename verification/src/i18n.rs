//! The localized texts of the Windows tools' files and outputs, by system
//! locale (only `fr-FR` has them).
use vstd::prelude::*;

use crate::text::str_eq;

verus! {

/// A table of pairs, each a key and its localized text.
pub open spec fn pairs_view(t: Seq<(&str, &str)>) -> Seq<(Seq<char>, Seq<char>)> {
    t.map_values(|p: (&str, &str)| (p.0@, p.1@))
}

/// The text of the first pair with this key.
pub open spec fn lookup(t: Seq<(Seq<char>, Seq<char>)>, key: Seq<char>) -> Option<Seq<char>>
    decreases t.len(),
{
    if t.len() == 0 {
        None
    } else if t[0].0 == key {
        Some(t[0].1)
    } else {
        lookup(t.drop_first(), key)
    }
}

/// The key of the first pair with this text.
pub open spec fn key_for(t: Seq<(Seq<char>, Seq<char>)>, text: Seq<char>) -> Option<Seq<char>>
    decreases t.len(),
{
    if t.len() == 0 {
        None
    } else if t[0].1 == text {
        Some(t[0].0)
    } else {
        key_for(t.drop_first(), text)
    }
}

pub fn lookup_exec(t: &Vec<(&'static str, &'static str)>, key: &str) -> (r: Option<&'static str>)
    ensures
        match lookup(pairs_view(t@), key@) {
            Some(v) => r is Some && r->0@ == v,
            None => r is None,
        },
{
    let ghost tv = pairs_view(t@);
    let mut i: usize = 0;
    assert(tv.skip(0) =~= tv);
    while i < t.len()
        invariant
            i <= t@.len(),
            tv == pairs_view(t@),
            lookup(tv, key@) == lookup(tv.skip(i as int), key@),
        decreases t@.len() - i,
    {
        let ghost rest = tv.skip(i as int);
        assert(rest[0] == tv[i as int]);
        assert(rest.drop_first() =~= tv.skip(i + 1));
        let (k, v) = t[i];
        if str_eq(k, key) {
            return Some(v);
        }
        i = i + 1;
    }
    None
}

/// The key of the first pair with this text.
pub fn key_for_exec(t: &Vec<(&'static str, &'static str)>, text: &str) -> (r: Option<&'static str>)
    ensures
        match key_for(pairs_view(t@), text@) {
            Some(k) => r is Some && r->0@ == k,
            None => r is None,
        },
{
    let ghost tv = pairs_view(t@);
    let mut i: usize = 0;
    assert(tv.skip(0) =~= tv);
    while i < t.len()
        invariant
            i <= t@.len(),
            tv == pairs_view(t@),
            key_for(tv, text@) == key_for(tv.skip(i as int), text@),
        decreases t@.len() - i,
    {
        let ghost rest = tv.skip(i as int);
        assert(rest[0] == tv[i as int]);
        assert(rest.drop_first() =~= tv.skip(i + 1));
        let (k, v) = t[i];
        if str_eq(v, text) {
            return Some(k);
        }
        i = i + 1;
    }
    None
}

pub open spec fn is_fr(locale: Seq<char>) -> bool {
    locale == "fr-FR"@
}

/// The French headers of the audit file.
pub open spec fn fr_audit_headers() -> Seq<(Seq<char>, Seq<char>)> {
    seq![
        ("computer_name"@, "Nom d’ordinateur"@),
        ("target"@, "Cible de stratégie"@),
        ("sub_category"@, "Sous-catégorie"@),
        ("guid"@, "GUID de sous-catégorie"@),
        ("inclusion_parameter"@, "Paramètre d’inclusion"@),
        ("exclusion_parameter"@, "Paramètre d’exclusion"@),
        ("parameter_value"@, "Valeur de paramètre"@),
    ]
}

/// The French names of the audit settings.
pub open spec fn fr_audit_parameters() -> Seq<(Seq<char>, Seq<char>)> {
    seq![
        ("disabled"@, "Désactivé"@),
        ("no_auditing"@, "Pas d’audit"@),
        ("success"@, "Réussite"@),
        ("failure"@, "Échec"@),
        ("success_and_failure"@, "Succès et échec"@),
    ]
}

/// The headers of the audit file in a locale.
pub open spec fn audit_header_table(locale: Seq<char>) -> Option<Seq<(Seq<char>, Seq<char>)>> {
    if is_fr(locale) {
        Some(fr_audit_headers())
    } else {
        None
    }
}

/// The names of the audit settings in a locale.
pub open spec fn audit_parameter_table(locale: Seq<char>) -> Option<Seq<(Seq<char>, Seq<char>)>> {
    if is_fr(locale) {
        Some(fr_audit_parameters())
    } else {
        None
    }
}

/// What the security template import prints when it is done.
pub open spec fn secedit_done(locale: Seq<char>) -> Option<Seq<char>> {
    if is_fr(locale) {
        Some("Terminé : 100 pour cent"@)
    } else {
        None
    }
}

/// What the audit import prints before an error code.
pub open spec fn auditpol_error(locale: Seq<char>) -> Option<Seq<char>> {
    if is_fr(locale) {
        Some("L'erreur 0x"@)
    } else {
        None
    }
}

/// The headers of the audit file in a locale (`AUDIT_CSV_HEADER_I18N`).
pub fn audit_headers(locale: &str) -> (r: Option<Vec<(&'static str, &'static str)>>)
    ensures
        match audit_header_table(locale@) {
            Some(t) => r is Some && pairs_view(r->0@) == t,
            None => r is None,
        },
{
    if str_eq(locale, "fr-FR") {
        let v = vec![
            ("computer_name", "Nom d’ordinateur"),
            ("target", "Cible de stratégie"),
            ("sub_category", "Sous-catégorie"),
            ("guid", "GUID de sous-catégorie"),
            ("inclusion_parameter", "Paramètre d’inclusion"),
            ("exclusion_parameter", "Paramètre d’exclusion"),
            ("parameter_value", "Valeur de paramètre"),
        ];
        assert(pairs_view(v@) =~= fr_audit_headers());
        Some(v)
    } else {
        None
    }
}

/// The names of the audit settings in a locale (`AUDIT_CSV_PARAMETERS_I18N`).
pub fn audit_parameters(locale: &str) -> (r: Option<Vec<(&'static str, &'static str)>>)
    ensures
        match audit_parameter_table(locale@) {
            Some(t) => r is Some && pairs_view(r->0@) == t,
            None => r is None,
        },
{
    if str_eq(locale, "fr-FR") {
        let v = vec![
            ("disabled", "Désactivé"),
            ("no_auditing", "Pas d’audit"),
            ("success", "Réussite"),
            ("failure", "Échec"),
            ("success_and_failure", "Succès et échec"),
        ];
        assert(pairs_view(v@) =~= fr_audit_parameters());
        Some(v)
    } else {
        None
    }
}

/// What the security template import prints when it is done
/// (`SECEDIT_COMMONS_I18N`).
pub fn secedit_done_text(locale: &str) -> (r: Option<&'static str>)
    ensures
        match secedit_done(locale@) {
            Some(t) => r is Some && r->0@ == t,
            None => r is None,
        },
{
    if str_eq(locale, "fr-FR") {
        Some("Terminé : 100 pour cent")
    } else {
        None
    }
}

/// What the audit import prints before an error code (`AUDITPOL_COMMON_I18N`).
pub fn auditpol_error_text(locale: &str) -> (r: Option<&'static str>)
    ensures
        match auditpol_error(locale@) {
            Some(t) => r is Some && r->0@ == t,
            None => r is None,
        },
{
    if str_eq(locale, "fr-FR") {
        Some("L'erreur 0x")
    } else {
        None
    }
}

} // verus!
