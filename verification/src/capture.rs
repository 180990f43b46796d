//! The two kinds of capture a request can ask for. Only the paginated
//! document kind goes through the split–compress–merge pipeline; a single
//! image is stored as it came.

use vstd::prelude::*;

verus! {

/// What the caller asked the capture collaborator to produce: a paginated
/// document or a single full-page image.
#[derive(Clone, Copy, Debug, PartialEq, Eq, Structural)]
pub enum CaptureType {
    Pdf,
    Png,
}

impl CaptureType {
    /// The file extension the stored object is keyed under.
    pub fn extension(&self) -> (r: &'static str)
        ensures
            *self == CaptureType::Pdf ==> r@ == "pdf"@,
            *self == CaptureType::Png ==> r@ == "png"@,
    {
        match self {
            CaptureType::Pdf => "pdf",
            CaptureType::Png => "png",
        }
    }

    /// Whether the captured bytes go through the pipeline: only a paginated
    /// document is split, recompressed and merged.
    pub fn needs_split(&self) -> (r: bool)
        ensures
            r <==> *self == CaptureType::Pdf,
    {
        match self {
            CaptureType::Pdf => true,
            CaptureType::Png => false,
        }
    }
}

} // verus!
