//! Checks of source files and of what is built from them.
pub mod banned_patterns;
pub mod banned_rules;
pub mod findings;
pub mod lint_laws;
pub mod magic_numbers;
pub mod patterns;
pub mod qom_type_info;
pub mod safe_serialization;
pub mod static_state;
pub mod verify_exports;

pub use banned_patterns::RustBannedPatternsLint;
pub use findings::Lint;
pub use magic_numbers::RustMagicNumbersLint;
pub use qom_type_info::QomTypeInfoLint;
pub use safe_serialization::RustSafeSerializationLint;
pub use static_state::StaticStateLint;
pub use verify_exports::ExportLint;
