//! Lifecycle core of an application launcher: registration, removal and
//! activation of client applications over a local cache and a shared
//! configuration list, with reference-counted per-application directories.

pub mod model;
pub mod path;
pub mod resource;
pub mod global_config;
pub mod local_cache;
pub mod handler;
pub mod laws;

pub use model::{AppId, DirKey};
pub use resource::{DirectoryListing, FileEntry, SubDirectory};
pub use global_config::{find_config, remove_from_launcher_global_config, upsert_to_launcher_global_config, LauncherConfiguration, LauncherError};
pub use local_cache::{LocalCache, LocalEntry};
pub use handler::{Activation, ActivationDetail, AppDetail, AppHandler, AppHandlerEvent, ConfigFile};
