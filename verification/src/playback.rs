//! Playback-side types. The byte conversion itself lives in `pcm`; the
//! file handle and the thread that writes are plain I/O and stay outside
//! the library.

use vstd::prelude::*;

verus! {

/// A playback sink backed by a raw PCM file: interleaved frames in the
/// declared format, little-endian, no header.
pub struct FilePlaybackDevice {
    pub filename: String,
    pub chunksize: usize,
    pub samplerate: usize,
    pub channels: usize,
    pub format: crate::formats::SampleFormat,
}

impl FilePlaybackDevice {
    pub fn new(
        filename: String,
        chunksize: usize,
        samplerate: usize,
        channels: usize,
        format: crate::formats::SampleFormat,
    ) -> (r: FilePlaybackDevice)
        ensures
            r.filename == filename,
            r.chunksize == chunksize,
            r.samplerate == samplerate,
            r.channels == channels,
            r.format == format,
    {
        FilePlaybackDevice { filename, chunksize, samplerate, channels, format }
    }
}

} // verus!
