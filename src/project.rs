//! Project metadata and per-target settings of a layout bundle.
use vstd::prelude::*;
use std::collections::BTreeMap;

verus! {

/// The name and description of a project in one language.
#[derive(Clone, Debug, PartialEq)]
pub struct ProjectDesc {
    /// The name string for the project. For mobile keyboards, this is the title of the app.
    pub name: String,
    /// The description of the project.
    pub description: String,
}

/// Meta data for the project, stored in the `project.yaml` file.
#[derive(Clone, Debug, PartialEq, Default)]
pub struct Project {
    /// Strings for describing the project, keyed by language code (ISO 639-1
    /// or ISO 639-3). The `en` locale must be present.
    pub locales: BTreeMap<String, ProjectDesc>,
    /// The primary author(s)
    pub author: String,
    /// One email address to contact the author(s) of the project
    pub email: String,
    /// The copyright string to be used where and if necessary.
    pub copyright: String,
    /// The associated organisation. Put author here too if no organisation.
    pub organisation: String,
}

/// Strings to be shown on some OSes
#[derive(Clone, Debug, PartialEq)]
pub struct LayoutStrings {
    pub space: String,
    pub return_: String,
}

/// Derive options
#[derive(Clone, Debug, PartialEq)]
pub struct DeriveOptions {
    pub transforms: Option<bool>,
}

#[derive(Clone, Debug, PartialEq)]
pub struct LayoutTargetWindows {
    /// The actual locale within Windows, as per their broken ISO 639-3 scheme
    /// or secret hardcoded lists.
    pub locale: String,
    /// The language name to be cached, in order to try to mask the ugly ISO
    /// code name that often shows.
    pub language_name: Option<String>,
    pub id: Option<String>,
}

#[derive(Clone, Debug, PartialEq)]
pub struct LayoutTargetIOS {
    pub legacy_name: Option<String>,
}

#[derive(Clone, Debug, PartialEq)]
pub struct TargetAndroid {
    pub version: String,
    pub build: u32,
    /// The reverse-domain notation ID for the package
    pub package_id: String,
    /// Path to the icon file, relative to project root.
    pub icon: Option<String>,
    pub sentry_dsn: Option<String>,
    pub show_number_hints: Option<bool>,
    pub minimum_sdk: Option<u32>,
    pub chfst: Option<bool>,
    /// Path to the Android keystore
    pub key_store: Option<String>,
    /// The key to use within the provided keystore
    pub key_alias: Option<String>,
}

#[derive(Clone, Debug, PartialEq)]
pub struct TargetIOS {
    pub version: String,
    pub build: u32,
    pub package_id: String,
    pub icon: Option<String>,
    pub bundle_name: String,
    pub team_id: Option<String>,
    pub code_sign_id: Option<String>,
    pub sentry_dsn: Option<String>,
    pub about_dir: Option<String>,
    pub chfst: Option<bool>,
}

#[derive(Clone, Debug, PartialEq)]
pub struct TargetWindows {
    pub version: String,
    pub app_name: String,
    pub url: String,
    pub uuid: String,
    pub code_sign_pfx: Option<String>,
    pub custom_locales: Option<String>,
    pub license_path: Option<String>,
    pub readme_path: Option<String>,
}

#[derive(Clone, Debug, PartialEq)]
pub struct TargetMacOS {
    pub version: String,
    pub build: u32,
    pub package_id: String,
    pub icon: Option<String>,
    pub bundle_name: String,
    pub team_id: Option<String>,
    pub code_sign_id: Option<String>,
}

#[derive(Clone, Debug, PartialEq)]
pub struct TargetChrome {
    pub version: String,
    pub build: u32,
    pub app_id: String,
}

#[derive(Clone, Debug, PartialEq)]
pub struct TargetX11 {
    pub version: String,
    pub build: u32,
}

#[derive(Clone, Debug, PartialEq)]
pub struct TargetMim {
    pub language_code: String,
    pub description: Option<String>,
}

/// Options of the XKB export.
#[derive(Debug, Clone)]
pub struct Options {
    pub standalone: bool,
}

} // verus!
