//! A small library for human-readable entity templates ("prefabs").
//!
//! A prefab is written in a compact text grammar, parsed into a dynamic,
//! structurally-typed value representation, and assembled onto an entity's
//! component store.  Component types and build commands are registered up
//! front in a [`registry::PrefabRegistry`]; prefab documents are parsed once
//! and cached under shared ownership until they are explicitly unloaded.
//!
//! A prefab file looks like this:
//!
//! ```text
//! SomePrefab {                   // The name is optional, the braces are not.
//!     Transform {                // Components are listed by type name.
//!         translation: Vec3 {    // Fields are initialized in nested braces;
//!             x: 15.0, y: 10.5,  // omitted fields keep the registered default.
//!         },
//!     },
//!     Visible,                   // Braces can be left off entirely.
//!     load!("base.prefab"),      // Another prefab's steps, spliced in place.
//!     processor!(color: Color::RED),  // A registered build command.
//! }
//! ```
//!
//! Parsing, caching, merging and assembly are specified against mathematical
//! models and verified; the host only reads files and registers its types
//! and commands.

pub mod assemble;
pub mod assoc;
pub mod build_commands;
pub mod dynamic_cast;
pub mod laws;
pub mod parse;
pub mod prefab;
pub mod registry;
pub mod strutil;
pub mod value;
