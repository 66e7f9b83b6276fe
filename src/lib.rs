//! A composable authorization engine: a tree of policy modules (allow
//! lists, structural message filters, all-of and any-of combinators) under
//! an authorization manager that decides whether an operation batch may run.

pub mod address_set;
pub mod allow_list;
pub mod combinator;
pub mod error;
pub mod manager;
pub mod message_filter;
pub mod msg;
pub mod network;
pub mod value;
