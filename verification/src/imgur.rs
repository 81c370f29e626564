//! The data an image host exchanges: uploaded items and the builders for
//! the upload requests.  The transfer itself is outside the library.

use vstd::prelude::*;

verus! {

/// An uploaded album, as the host reports it.
#[derive(Debug, PartialEq)]
pub struct Album {
    pub id: String,
    pub delete_hash: String,
}

/// An uploaded image, as the host reports it.
#[derive(Debug, PartialEq)]
pub struct Image {
    pub id: String,
    pub delete_hash: String,
}

/// The request to create an album.
#[derive(Debug, PartialEq)]
pub struct AlbumBuilder {
    pub title: Option<String>,
    pub description: Option<String>,
}

impl AlbumBuilder {
    /// A request with nothing set.
    pub fn builder() -> (r: AlbumBuilder)
        ensures
            r.title is None,
            r.description is None,
    {
        AlbumBuilder { title: None, description: None }
    }

    /// Sets the album title.
    pub fn with_title(&mut self, title: &str)
        ensures
            final(self).title matches Some(t) && t@ == title@,
            final(self).description == old(self).description,
    {
        self.title = Some(title.to_owned());
    }

    /// The request with the album title set.
    pub fn title(self, title: &str) -> (r: AlbumBuilder)
        ensures
            r.title matches Some(t) && t@ == title@,
            r.description == self.description,
    {
        let mut b = self;
        b.with_title(title);
        b
    }
}

/// Credentials for the image host.
#[derive(Clone, Debug, PartialEq)]
pub struct ImgurCredentials {
    pub imgur_client_id: String,
    pub imgur_client_secret: String,
}

} // verus!
