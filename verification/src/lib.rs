//! A verified singly-linked list of integers with a graph-description
//! serializer and a small line-oriented command dispatcher.
//!
//! The list owns its nodes as a strict chain (no sharing, no cycles) and
//! caches its element count; every operation is specified against the
//! sequence of values held by the chain. The serializer renders the list
//! as a deterministic textual graph description, and the dispatcher routes
//! tokenized command lines to a pluggable `Management` capability.

pub mod linked_list;
pub mod text;
pub mod interactive;
pub mod ll_manager;
