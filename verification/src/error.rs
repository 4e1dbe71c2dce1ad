//! Failures of filter construction and of the transform backend.

use vstd::prelude::*;

use crate::channel::ChannelPosition;
use crate::format::SampleEncoding;

verus! {

/// Why building a filter instance, or a transform call, failed.
///
/// All construction-time variants are fatal to building an instance and are
/// never retried; `TransformBackendFailure` also covers a backend fault
/// surfaced during a later transform call.
#[derive(Clone, Copy, Debug, PartialEq, Eq, Structural)]
pub enum FilterError {
    /// The recording's samples are not 32-bit IEEE float.
    UnsupportedSampleFormat { encoding: SampleEncoding, bits: u16 },
    /// The recording carries more channels than the filter supports.
    TooManyChannels { given: usize },
    /// A mapped position whose mirror has no channel in the recording.
    AsymmetricHrir { position: ChannelPosition },
    /// A different sample rate was requested but no resampler is available.
    ResamplingUnavailable,
    /// The transform primitive failed to plan, allocate or run.
    TransformBackendFailure,
}

impl FilterError {
    /// A short human-readable tag for each failure.
    pub fn describe(&self) -> (r: &'static str)
        ensures
            (*self matches FilterError::UnsupportedSampleFormat { .. }) ==> r@
                == "unsupported sample format"@,
            (*self matches FilterError::TooManyChannels { .. }) ==> r@ == "too many channels"@,
            (*self matches FilterError::AsymmetricHrir { .. }) ==> r@
                == "asymmetric hrir recording"@,
            (*self matches FilterError::ResamplingUnavailable) ==> r@
                == "resampling unavailable"@,
            (*self matches FilterError::TransformBackendFailure) ==> r@
                == "transform backend failure"@,
    {
        match self {
            FilterError::UnsupportedSampleFormat { .. } => "unsupported sample format",
            FilterError::TooManyChannels { .. } => "too many channels",
            FilterError::AsymmetricHrir { .. } => "asymmetric hrir recording",
            FilterError::ResamplingUnavailable => "resampling unavailable",
            FilterError::TransformBackendFailure => "transform backend failure",
        }
    }
}

} // verus!
