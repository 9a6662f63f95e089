//! The kinds of transformation a `Spec` holds.
use vstd::prelude::*;
use super::Resize;
use super::Watermark;

verus! {

#[derive(Clone, Copy, Debug, PartialEq, Eq, Structural)]
pub enum Data {
    Resize(Resize),
    Watermark(Watermark),
}

} // verus!
