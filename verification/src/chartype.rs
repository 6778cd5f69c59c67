//! Allegiance of a field unit.
use vstd::prelude::*;

verus! {

/// Which side a field unit fights on.  The range finder treats all units
/// alike; consumers pick highlight tags by this.
#[derive(Clone, Copy, PartialEq, Eq, Structural, Debug)]
pub enum CharType {
    Player,
    Ally,
    Enemy,
}

} // verus!
