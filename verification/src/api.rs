//! The pluggable faces of the library: the client interface, the network
//! connector its consumers supply, and the shape of a resolved video.

use vstd::prelude::*;
use crate::error::Error;
use crate::video::YoutubeVideo;

verus! {

/// A resolved video: its title and its per-format URLs.
pub trait Video {
    /// The title of the video.
    fn title(&self) -> &Vec<u8>;

    /// A URL for the video in the requested format, if it has one.
    fn get_url(&self, format: &Vec<u8>) -> Option<&Vec<u8>>;

    /// All available formats for the video.
    fn list_formats(&self) -> Vec<Vec<u8>>;
}

impl Video for YoutubeVideo {
    fn title(&self) -> &Vec<u8> {
        YoutubeVideo::title(self)
    }

    fn get_url(&self, format: &Vec<u8>) -> Option<&Vec<u8>> {
        YoutubeVideo::get_url(self, format)
    }

    fn list_formats(&self) -> Vec<Vec<u8>> {
        YoutubeVideo::list_formats(self)
    }
}

/// Downloads the document a URL names.
///
/// Consumers supply the implementation, with whatever network stack they
/// prefer; the library assumes nothing about what an implementation
/// returns.
pub trait ClientConnector {
    type Err;

    /// Downloads the document the URL names, or fails with the
    /// implementation's own error.
    fn download_string(&self, uri: &Vec<u8>) -> Result<Vec<u8>, Self::Err>;
}

/// Queries a service for the video an identifier names.
pub trait Client {
    type Video: Video;

    /// Queries the service for a video matching the provided identifier.
    fn query(&self, identifier: &Vec<u8>) -> Result<Self::Video, Error>;
}

} // verus!
