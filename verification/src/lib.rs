//! An associative container for non-owned values.
//!
//! `DataCloud` records where externally owned data lives: it maps keys to
//! plain, non-owning handles chosen by the caller (an arena index, a slot
//! number, an address-like token) and never copies, moves or frees the data
//! those handles stand for. The container supports keyed insertion, lookup,
//! removal and bulk merging, plus adapters that drain it into plain
//! sequences of pairs.
//!
//! Every operation carries a contract over the container's mathematical
//! view, a `Map<K, V>`, and the backing table is the fxhash table, reached
//! through the specifications that vstd gives to `std::collections::HashMap`.

pub mod cloud;
pub mod error;
pub mod iter;
pub mod model;

pub use cloud::CombineWith;
pub use cloud::DataCloud;
pub use cloud::IntoOwned;
pub use cloud::RawRef;
pub use error::NullPointerError;
