//! Content-addressed pinning of model weight blobs.
//!
//! Every registered model has an identifier, the SHA-256 digest of its weights and
//! a list of mirrors. The pinner looks for the weights in its cache, else asks the
//! mirrors in order, and keeps nothing whose digest is not the expected one. A
//! mirror is contacted only after its URL and the addresses of its host have been
//! checked.
//!
//! Nothing here touches the file system, the network or the environment. A
//! [`fetch::Fetch`] decides what is to be done next; the program around it does
//! that and reports what came of it.
//!
//! - [`model`] and [`digest`]: models, their identifiers and digests.
//! - [`pinner`]: the cache.
//! - [`mirror`] and [`ip`]: which mirrors may be contacted.
//! - [`fetch`]: fetching, one step at a time.
//! - [`error`] and [`text`]: errors, and text as sequences of characters.
//! - [`cache_laws`], [`mirror_laws`], [`ip_laws`], [`fetch_laws`], [`text_laws`] and
//!   [`view_laws`]: what holds of all of these, each alone and together.
pub mod cache_laws;
pub mod digest;
pub mod error;
pub mod fetch;
pub mod fetch_laws;
pub mod ip;
pub mod ip_laws;
pub mod mirror;
pub mod mirror_laws;
pub mod model;
pub mod pinner;
pub mod text;
pub mod text_laws;
pub mod view_laws;

pub use crate::error::PinError;
pub use crate::mirror::DEFAULT_MAX_DOWNLOAD_BYTES;
pub use crate::model::ModelEntry;
pub use crate::pinner::Pinner;
