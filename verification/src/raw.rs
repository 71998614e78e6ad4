//! The flat, textual form of a rule's method, as the rules file holds it.
use vstd::prelude::*;

use crate::text::{chars_of, str_eq, string_of};

verus! {

/// A method as six strings: its name, target, two options, scope and action.
#[derive(Debug)]
pub struct RawMethod {
    pub method: String,
    pub target: String,
    pub option1: String,
    pub option2: String,
    pub scope: String,
    pub action: String,
}

pub struct RawView {
    pub method: Seq<char>,
    pub target: Seq<char>,
    pub option1: Seq<char>,
    pub option2: Seq<char>,
    pub scope: Seq<char>,
    pub action: Seq<char>,
}

impl View for RawMethod {
    type V = RawView;

    open spec fn view(&self) -> RawView {
        RawView {
            method: self.method@,
            target: self.target@,
            option1: self.option1@,
            option2: self.option2@,
            scope: self.scope@,
            action: self.action@,
        }
    }
}

impl RawMethod {
    pub fn copy(&self) -> (r: RawMethod)
        ensures
            r@ == self@,
    {
        RawMethod {
            method: self.method.clone(),
            target: self.target.clone(),
            option1: self.option1.clone(),
            option2: self.option2.clone(),
            scope: self.scope.clone(),
            action: self.action.clone(),
        }
    }

    /// Field-by-field equality.
    pub fn same(&self, other: &RawMethod) -> (r: bool)
        ensures
            r == (self@ == other@),
    {
        str_eq(self.method.as_str(), other.method.as_str()) && str_eq(
            self.target.as_str(),
            other.target.as_str(),
        ) && str_eq(self.option1.as_str(), other.option1.as_str()) && str_eq(
            self.option2.as_str(),
            other.option2.as_str(),
        ) && str_eq(self.scope.as_str(), other.scope.as_str()) && str_eq(
            self.action.as_str(),
            other.action.as_str(),
        )
    }
}

/// One line of the rules file.
#[derive(Debug)]
pub struct CsvRecord {
    pub id: String,
    pub name: String,
    pub category: String,
    pub method: String,
    pub target: String,
    pub option1: String,
    pub option2: String,
    pub scope: String,
    pub action: String,
    pub tags: String,
}

impl CsvRecord {
    /// The method part of the record.
    pub fn to_raw(&self) -> (r: RawMethod)
        ensures
            r@ == (RawView {
                method: self.method@,
                target: self.target@,
                option1: self.option1@,
                option2: self.option2@,
                scope: self.scope@,
                action: self.action@,
            }),
    {
        RawMethod {
            method: self.method.clone(),
            target: self.target.clone(),
            option1: self.option1.clone(),
            option2: self.option2.clone(),
            scope: self.scope.clone(),
            action: self.action.clone(),
        }
    }
}

/// An owned copy of a literal.
pub fn lit(s: &str) -> (r: String)
    ensures
        r@ == s@,
{
    let v = chars_of(s);
    string_of(v.as_slice())
}

/// Lowercase form of a string (`str::to_lowercase`, full Unicode case mapping).
pub uninterp spec fn str_lowercase(s: Seq<char>) -> Seq<char>;

/// Calls `str::to_lowercase`; the result is named, not described.
#[verifier::external_body]
pub(crate) fn to_lowercase(s: &str) -> (r: String)
    ensures
        r@ == str_lowercase(s@),
{
    s.to_lowercase()
}

} // verus!
