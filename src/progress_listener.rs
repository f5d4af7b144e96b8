use vstd::prelude::*;

verus! {

/// Receives the progress of a render: `done` scanlines out of `total` have been computed.
pub trait ProgressListener {
    fn update(&mut self, done: usize, total: usize);
}

/// A listener that ignores every report.
#[derive(Debug, Clone, Copy, PartialEq, Eq, Structural)]
pub struct VoidListener {}

impl ProgressListener for VoidListener {
    fn update(&mut self, _done: usize, _total: usize) {
    }
}

} // verus!
