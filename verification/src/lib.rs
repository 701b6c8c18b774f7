//! A linter for dependency lock files: it finds the inputs that are locked
//! to the same source.
//!
//! Every locked source has a canonical URI ([`flake_uri`]). The inputs of a
//! document are its locked nodes with their canonical URIs
//! ([`parse_inputs`]); the duplicates are the inputs that carry a URI which
//! an earlier input carries already ([`find_duplicates`]). [`lint`] puts the
//! two together and checks the schema version first.

pub mod duplicates;
pub mod inputs;
pub mod lint;
pub mod lock;
pub mod ordered_map;
pub mod report;
pub mod uri;

pub use crate::duplicates::find_duplicates;
pub use crate::inputs::parse_inputs;
pub use crate::lint::{lint, Verdict};
pub use crate::lock::{FlakeLock, Locked, Node, SUPPORTED_VERSION};
pub use crate::ordered_map::OrderedMap;
pub use crate::report::Report;
pub use crate::uri::{flake_uri, join_scm_uri, make_scm_uri, make_url_uri};
