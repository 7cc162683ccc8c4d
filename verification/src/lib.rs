//! An embedded document-oriented database core: a JSON command protocol
//! ("JQL") for creating and dropping databases and collections, schema
//! validation for collection definitions, and a catalog that maps logical
//! (database, collection) names to storage partitions.
use vstd::prelude::*;

pub mod act;
pub mod config;
pub mod ctp;
pub mod dtp;
pub mod error;
pub mod exec;
pub mod func;
pub mod headers;
pub mod jql;
pub mod jqls;
pub mod json;
pub mod log;
pub mod mtp;
pub mod ops;
pub mod resp;
pub mod sys;
pub mod trx;
pub mod util;
pub mod var;
