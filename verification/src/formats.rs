//! Sample formats of the PCM wire data.

use vstd::prelude::*;

verus! {

/// On-the-wire sample format. Integer formats are little-endian two's
/// complement; `S24LE` occupies four bytes with the high byte holding the
/// sign extension. Float formats are little-endian IEEE-754 bit patterns.
#[derive(Clone, Copy, PartialEq, Eq, Structural, Debug)]
pub enum SampleFormat {
    S16LE,
    S24LE,
    S32LE,
    F32LE,
    F64LE,
}

impl SampleFormat {
    /// Significant bits of one sample.
    pub open spec fn spec_bits(self) -> int {
        match self {
            SampleFormat::S16LE => 16,
            SampleFormat::S24LE => 24,
            SampleFormat::S32LE => 32,
            SampleFormat::F32LE => 32,
            SampleFormat::F64LE => 64,
        }
    }

    /// Bytes one sample occupies on the wire.
    pub open spec fn spec_store_bytes(self) -> int {
        match self {
            SampleFormat::S16LE => 2,
            SampleFormat::S24LE => 4,
            SampleFormat::S32LE => 4,
            SampleFormat::F32LE => 4,
            SampleFormat::F64LE => 8,
        }
    }

    /// True of the integer PCM formats.
    pub open spec fn spec_is_int(self) -> bool {
        match self {
            SampleFormat::S16LE => true,
            SampleFormat::S24LE => true,
            SampleFormat::S32LE => true,
            SampleFormat::F32LE => false,
            SampleFormat::F64LE => false,
        }
    }

    pub fn bits(&self) -> (r: u32)
        ensures
            r == self.spec_bits(),
    {
        match self {
            SampleFormat::S16LE => 16,
            SampleFormat::S24LE => 24,
            SampleFormat::S32LE => 32,
            SampleFormat::F32LE => 32,
            SampleFormat::F64LE => 64,
        }
    }

    pub fn store_bytes(&self) -> (r: usize)
        ensures
            r == self.spec_store_bytes(),
    {
        match self {
            SampleFormat::S16LE => 2,
            SampleFormat::S24LE => 4,
            SampleFormat::S32LE => 4,
            SampleFormat::F32LE => 4,
            SampleFormat::F64LE => 8,
        }
    }

    pub fn is_int(&self) -> (r: bool)
        ensures
            r == self.spec_is_int(),
    {
        match self {
            SampleFormat::S16LE => true,
            SampleFormat::S24LE => true,
            SampleFormat::S32LE => true,
            SampleFormat::F32LE => false,
            SampleFormat::F64LE => false,
        }
    }
}

} // verus!
