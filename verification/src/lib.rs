//! A versioning engine.
//!
//! One annotated declaration and an ordered list of version names give, for
//! each version, a copy of the declaration from which every part that does
//! not apply to that version has been removed. Parts are kept or dropped by
//! small filter expressions attached to them as annotations named
//! `version`.
//!
//! - [`version`] holds the versions and the registry that orders them,
//! - [`filter`] the filter expressions and what they mean,
//! - [`token`], [`syntax`] and [`arguments`] the two small languages that
//!   the engine reads: filter expressions, and the version list with its
//!   settings,
//! - [`tree`] the declarations,
//! - [`versioning`] the engine itself,
//! - [`laws`] what holds of it whatever it is given,
//! - [`error`] what can go wrong.
//!
//! Every function states what it returns over a mathematical model of its
//! arguments, and is proved to return that.

pub mod arguments;
pub mod error;
pub mod filter;
pub mod laws;
pub mod syntax;
mod text;
pub mod token;
pub mod tree;
pub mod version;
pub mod versioning;

pub use crate::arguments::parse_input;
pub use crate::error::Error;
pub use crate::filter::Filter;
pub use crate::filter::VersionFilter;
pub use crate::tree::BodyItem;
pub use crate::version::Version;
pub use crate::version::VersionList;
pub use crate::versioning::call;
pub use crate::versioning::emit;
pub use crate::versioning::filter_item;
pub use crate::versioning::get_version_attr;
pub use crate::versioning::Options;
