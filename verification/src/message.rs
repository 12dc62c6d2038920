//! What a chat message has to be.

use vstd::prelude::*;
use crate::serialization::{Deserializable, Serializable};

verus! {

/// A payload that peers exchange: it can be encoded, decoded and copied for
/// each session it is delivered to.
pub trait Message: Serializable + Deserializable + Clone {}

impl Message for String {}

} // verus!
