//! A DNS wire-format codec and the decision logic of an iterative resolver.
//!
//! The [`dns`] module holds the bounds-checked cursor, the header, question and
//! resource-record codecs, and the packet model. The [`resolver`] module holds
//! the query and reply builders and the delegation-walking state machine; the
//! network round trips themselves are left to the caller.

pub mod dns;
pub mod resolver;
