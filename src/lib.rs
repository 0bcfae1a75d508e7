//! Request bins: ephemeral capture endpoints, their response settings,
//! the log of captured requests and the retention sweep over them.

pub mod ext;
pub mod headers;
pub mod laws;
pub mod model;
pub mod store;
