//! Package management rules for a file-level software distribution: package
//! file names and versions, the installed-package database, and the decisions
//! taken while installing, updating, removing and checking packages.

pub mod text;
pub mod version;
pub mod compare;
pub mod names;
pub mod table;
pub mod model;
pub mod paths;
pub mod index;
pub mod plan;
pub mod update;
pub mod install;
pub mod remove;
pub mod replace;
pub mod check;
pub mod untracked;
pub mod digest;
pub mod lines;
pub mod listing;
pub mod cache;
pub mod archive;
pub mod prompt;
pub mod fsops;
pub mod walk;
pub mod effects;
pub mod laws;
pub mod orchestrate;


pub use crate::check::check_packages;
pub use crate::index::{is_empty_dir, list_available};
pub use crate::install::install_packages;
pub use crate::model::InstalledPackage;
pub use crate::remove::{if_installed, remove_package, remove_packages};
pub use crate::replace::update_package;
pub use crate::untracked::get_untracked;
pub use crate::update::update_packages;
