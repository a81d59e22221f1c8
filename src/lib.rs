//! Wire-protocol core of a D-Bus client: the type-signature grammar, the
//! name grammars, the alignment-aware marshaller and the message header.
use vstd::prelude::*;

pub mod header;
pub mod marshal;
pub mod message;
pub mod names;
pub mod type_sig;

verus! {

} // verus!
