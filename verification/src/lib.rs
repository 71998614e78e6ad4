use vstd::prelude::*;

pub mod advanced_auditing;
pub mod appx_package;
pub mod config;
pub mod encoding;
pub mod firewall;
pub mod i18n;
pub mod lgpo;
pub mod local_group;
pub mod local_user;
pub mod num;
pub mod raw;
pub mod rule;
pub mod safer;
pub mod secedit;
pub mod service;
pub mod text;
pub mod utils;
pub mod windows_capability;
pub mod windows_optional_feature;

verus! {
} // verus!
