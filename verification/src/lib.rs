//! Loads and catalogs syntax-highlighting theme definitions from a
//! directory tree: discovers `.tmTheme` files, parses each into a generic
//! settings tree, validates the tree into a `Theme`, and aggregates the
//! results into a name-keyed catalog, failing the whole load on the first
//! error.

pub mod paths;
pub mod settings;
pub mod theme;
pub mod theme_set;
