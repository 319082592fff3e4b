//! A two-layer codec for sending structured data through a channel that only
//! carries text drawn from a small fixed alphabet.
//!
//! The character layer turns text over a 98-symbol alphabet into a decimal
//! numeral string and back; the schema layer turns typed records and tagged
//! unions into ordered item lists carried by the character layer.

pub mod alphabet;
pub mod codec;
pub mod items;
pub mod schema;
pub mod stringify;

use vstd::prelude::*;

verus! {

/// A message of the cloud-variable transport: one endpoint's handshake, or a
/// variable assignment.
pub enum CloudMethod {
    Handshake { user: String, project_id: String },
    SetVar { name: String, user: String, project_id: String, value: String },
}

} // verus!
