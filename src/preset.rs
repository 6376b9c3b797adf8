//! The persistable result of a run.
use vstd::prelude::*;

use crate::assignment::is_permutation;

verus! {

/// A run's raw input: the source image at its native resolution.
#[derive(Clone)]
pub struct UnprocessedPreset {
    pub name: String,
    pub width: u32,
    pub height: u32,
    /// Row-major RGB bytes.
    pub source_img: Vec<u8>,
}

/// A finished run: its input, the assignment found, and optionally the
/// target buffer.
#[derive(Clone)]
pub struct Preset {
    pub inner: UnprocessedPreset,
    /// `assignments[dst] == src`.
    pub assignments: Vec<usize>,
    pub target_img: Option<Vec<u8>>,
}

impl UnprocessedPreset {
    /// The buffer holds `width * height` RGB pixels.
    pub open spec fn wf(&self) -> bool {
        self.source_img@.len() == 3 * (self.width as int * self.height as int)
    }
}

impl Preset {
    /// A square source whose pixels the assignment permutes.
    pub open spec fn wf(&self) -> bool {
        &&& self.inner.wf()
        &&& self.inner.width == self.inner.height
        &&& is_permutation(
            self.assignments@,
            (self.inner.width as int * self.inner.height as int) as nat,
        )
    }
}

} // verus!
