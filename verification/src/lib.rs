//! Lowers a Tailwind stylesheet's `@utility`, `@custom-variant`, and `@theme`
//! at-rules into a [TailwindRegistry].
//!
//! Only what Tailwind's sorter derives from those directives is kept: which
//! names exist, which theme keys they accept, and each utility's
//! `propertySort` (the property-order positions its declarations set, plus the
//! declaration count). Other directives — `@plugin`, `@config`,
//! `@import "tailwindcss" prefix(…)` — are left alone; classes they would add
//! stay unknown to the sorter.

pub mod ascending;
pub mod block_laws;
pub mod css;
pub mod declarations;
pub mod extract;
pub mod import_laws;
pub mod imports;
pub mod laws;
pub mod lookup_laws;
pub mod properties;
pub mod property_sort;
pub mod registry;
pub mod registry_laws;
pub mod sort_laws;
pub mod stylesheet;
pub mod stylesheet_laws;
pub mod text;
pub mod value_laws;
pub mod values;
pub mod walk;
pub mod walk_laws;

pub use extract::extract_tailwind_registry;
pub use properties::PropertyIndex;
pub use property_sort::{Reply, UtilityPlacement};
pub use registry::TailwindRegistry;
pub use stylesheet::tailwind_registry_for_stylesheet;
