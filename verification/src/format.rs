//! Validation of the sample encoding of a HRIR recording.

use vstd::prelude::*;

use crate::error::FilterError;

verus! {

/// The sample encodings the filter can consume.
#[derive(Clone, Copy, Debug, PartialEq, Eq, Structural)]
pub enum SampleFormat {
    F32,
}

/// The encoding family a wave decoder reports for a recording's samples.
#[derive(Clone, Copy, Debug, PartialEq, Eq, Structural)]
pub enum SampleEncoding {
    IeeeFloat,
    IntegerPcm,
    Other,
}

impl SampleFormat {
    /// Accepts exactly 32-bit IEEE float samples; every other encoding or
    /// width is rejected as unsupported.
    pub fn try_from(encoding: SampleEncoding, bits: u16) -> (r: Result<SampleFormat, FilterError>)
        ensures
            encoding == SampleEncoding::IeeeFloat && bits == 32 ==> r == Ok::<
                SampleFormat,
                FilterError,
            >(SampleFormat::F32),
            !(encoding == SampleEncoding::IeeeFloat && bits == 32) ==> r == Err::<
                SampleFormat,
                FilterError,
            >(FilterError::UnsupportedSampleFormat { encoding, bits }),
    {
        match (encoding, bits) {
            (SampleEncoding::IeeeFloat, 32) => Ok(SampleFormat::F32),
            (encoding, bits) => Err(FilterError::UnsupportedSampleFormat { encoding, bits }),
        }
    }
}

} // verus!
