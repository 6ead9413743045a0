pub mod empty;
pub mod parse;
pub mod vcd;

use vstd::prelude::*;

use crate::formatting::WaveFormat;

verus! {

/// A signal declaration read from an event log: the flattened dotted name
/// and the display classification derived from the declared width.
#[derive(Debug)]
pub struct SignalDeclaration {
    pub name: String,
    pub format: WaveFormat,
}

} // verus!
