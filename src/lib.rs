//! Subdomain enumeration: per-source query URLs, response extraction, and the
//! failure-tolerant merge of every source's findings into one set.
pub mod subdomain_set;
pub mod text;
pub mod sources;
pub mod aggregate;
