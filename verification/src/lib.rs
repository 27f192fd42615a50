//! Build-time model of an extension API: the class hierarchy, the classification
//! sets, the notification enum shared along each inheritance chain, and the cache
//! of resolved types.

pub mod api;
pub mod context;
pub mod error;
pub mod inheritance;
pub mod model;
pub mod names;
pub mod notification;
pub mod snapshot;
pub mod type_cache;
