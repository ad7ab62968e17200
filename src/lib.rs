//! Normalisation of keyboard layouts: the key-value text codec, the ISO key
//! positions, modifier combinations, and the conversion of CLDR keyboard
//! descriptions into per-mode key layers.
pub mod cldr;
pub mod iso_key;
pub mod keys;
pub mod models;
pub mod modifiers;
pub mod project;
pub mod text;

pub use cldr::{KeyMap, Keyboard, MapElement, Name, Names, Platform, Transform, Transforms, Version};
pub use iso_key::{IsoKey, RawIsoKey};
pub use keys::{decode_unicode_escapes, deserialize, serialize, KeyValue};
pub use models::{DesktopKeyMap, DesktopModes, MobileKeyMap, MobileModes, Mode, Modes};
pub use modifiers::parse_modifiers;
pub use project::{
    DeriveOptions, LayoutStrings, LayoutTargetIOS, LayoutTargetWindows, Options, Project, ProjectDesc,
    TargetAndroid, TargetChrome, TargetIOS, TargetMacOS, TargetMim, TargetWindows, TargetX11,
};
