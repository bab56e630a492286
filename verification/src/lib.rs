//! A hand-written JSON engine: a cursor-driven recursive-descent parser,
//! an ordered duplicate-tolerant value model, and compact and indented
//! serializers, together with the small query-string, calendar and
//! account helpers built around it.  Every function is verified against
//! specification functions over character sequences; the only trusted
//! pieces are thin wrappers over the system clock, the digest routine and
//! the string and character bridges.

pub mod auth;
pub mod chars;
pub mod date;
pub mod decimal;
pub mod error;
pub mod laws;
pub mod list;
pub mod model;
pub mod num;
pub mod object;
pub mod pair;
pub mod sql;
pub mod types;
pub mod var;
