//! The navigation system that a sentence comes from.

use vstd::prelude::*;

verus! {

/// The navigation system that sent a sentence. The record parsers hand it
/// through unchanged.
#[derive(Debug, Clone, Copy, PartialEq, Eq, Structural)]
pub enum Source {
    /// USA Global Positioning System.
    GPS,
    /// Russian Federation GLONASS.
    GLONASS,
    /// European Union Galileo.
    Galileo,
    /// China's Beidou.
    Beidou,
    /// A receiver that combines several systems.
    GNSS,
}

} // verus!
