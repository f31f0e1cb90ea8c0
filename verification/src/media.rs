use vstd::prelude::*;

use crate::strings::{opt_string_eq, string_eq};

verus! {

/// The kind of a media value.
#[derive(Clone, Copy, Debug, PartialEq, Eq, Structural)]
pub enum BamlMediaType {
    Image,
    Audio,
}

/// A media file referenced by its path.
#[derive(Clone, Debug, PartialEq)]
pub struct MediaFile {
    pub path: String,
}

/// A media value referenced by URL.
#[derive(Clone, Debug, PartialEq)]
pub struct MediaUrl {
    pub url: String,
}

/// A media value carried inline as base64 text.
#[derive(Clone, Debug, PartialEq)]
pub struct MediaBase64 {
    pub base64: String,
}

/// Where the bytes of a media value come from.
#[derive(Clone, Debug, PartialEq)]
pub enum BamlMediaContent {
    File(MediaFile),
    Url(MediaUrl),
    Base64(MediaBase64),
}

/// An image or audio value.
#[derive(Clone, Debug, PartialEq)]
pub struct BamlMedia {
    pub media_type: BamlMediaType,
    pub mime_type: Option<String>,
    pub content: BamlMediaContent,
}

/// Abstract content of a media value.
pub enum MediaContentV {
    File(Seq<char>),
    Url(Seq<char>),
    Base64(Seq<char>),
}

/// Abstract media value.
pub struct MediaV {
    pub media_type: BamlMediaType,
    pub mime_type: Option<Seq<char>>,
    pub content: MediaContentV,
}

pub open spec fn opt_string_view(s: Option<String>) -> Option<Seq<char>> {
    match s {
        Some(x) => Some(x@),
        None => None,
    }
}

impl View for BamlMediaContent {
    type V = MediaContentV;

    open spec fn view(&self) -> MediaContentV {
        match self {
            BamlMediaContent::File(f) => MediaContentV::File(f.path@),
            BamlMediaContent::Url(u) => MediaContentV::Url(u.url@),
            BamlMediaContent::Base64(b) => MediaContentV::Base64(b.base64@),
        }
    }
}

impl View for BamlMedia {
    type V = MediaV;

    open spec fn view(&self) -> MediaV {
        MediaV {
            media_type: self.media_type,
            mime_type: opt_string_view(self.mime_type),
            content: self.content@,
        }
    }
}

impl BamlMediaContent {
    /// A copy with the same content.
    pub fn duplicate(&self) -> (r: BamlMediaContent)
        ensures
            r@ == self@,
    {
        match self {
            BamlMediaContent::File(f) => BamlMediaContent::File(MediaFile { path: f.path.clone() }),
            BamlMediaContent::Url(u) => BamlMediaContent::Url(MediaUrl { url: u.url.clone() }),
            BamlMediaContent::Base64(b) => BamlMediaContent::Base64(
                MediaBase64 { base64: b.base64.clone() },
            ),
        }
    }

    /// Field-wise equality.
    pub fn same_as(&self, other: &BamlMediaContent) -> (r: bool)
        ensures
            r == (self@ == other@),
    {
        match (self, other) {
            (BamlMediaContent::File(a), BamlMediaContent::File(b)) => string_eq(&a.path, &b.path),
            (BamlMediaContent::Url(a), BamlMediaContent::Url(b)) => string_eq(&a.url, &b.url),
            (BamlMediaContent::Base64(a), BamlMediaContent::Base64(b)) => string_eq(
                &a.base64,
                &b.base64,
            ),
            _ => false,
        }
    }
}

impl BamlMedia {
    /// A copy with the same type, mime type and content.
    pub fn duplicate(&self) -> (r: BamlMedia)
        ensures
            r@ == self@,
    {
        let mime_type = match &self.mime_type {
            Some(m) => Some(m.clone()),
            None => None,
        };
        BamlMedia { media_type: self.media_type, mime_type, content: self.content.duplicate() }
    }

    /// Field-wise equality, as the derived `==` of media values compares.
    pub fn same_as(&self, other: &BamlMedia) -> (r: bool)
        ensures
            r == (self@ == other@),
    {
        self.media_type == other.media_type && opt_string_eq(&self.mime_type, &other.mime_type)
            && self.content.same_as(&other.content)
    }
}

} // verus!
