//! Core logic of a desktop file browser: listing the immediate children of a
//! directory and ranking them against an optional fuzzy search query.
//!
//! The crate is organised leaf-first: [`edit`] computes Levenshtein edit
//! distance, [`score`] turns a name/query pair into a tiered relevance value,
//! [`objects`] builds, filters and stably sorts the directory entries, and
//! [`sidebar`] assembles the well-known sidebar locations.

pub mod edit;
pub mod greeting;
pub mod objects;
pub mod paths;
pub mod score;
pub mod sidebar;

pub use edit::distance;
pub use greeting::greet;
pub use sidebar::sidebar_locations;
pub use sidebar::SidebarItem;
pub use objects::grab_objects;
pub use objects::Object;
pub use objects::ObjectType;
pub use objects::PaginationOptions;
pub use objects::RawEntry;
pub use score::score;
pub use score::score_folded;
