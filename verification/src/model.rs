//! The fixed content model that the host consumes: listings,
//! details, chapters and the filters a listing query may carry.
//! Numeric chapter and volume labels are kept as the decimal tokens
//! found in the source markup; the host layer turns them into its own
//! number type.

use vstd::prelude::*;

verus! {

/// Publication status of a series.
#[derive(Clone, Copy, Debug, PartialEq, Eq, Structural)]
pub enum MangaStatus {
    Unknown,
    Ongoing,
    Completed,
    Cancelled,
    Hiatus,
}

/// Content rating of a series.
#[derive(Clone, Copy, Debug, PartialEq, Eq, Structural)]
pub enum MangaContentRating {
    Safe,
    Suggestive,
    Nsfw,
}

/// Reading direction the host should present.
#[derive(Clone, Copy, Debug, PartialEq, Eq, Structural)]
pub enum MangaViewer {
    Default,
    Rtl,
    Ltr,
    Vertical,
    Scroll,
}

/// One series entry of the content model.
#[derive(Debug)]
pub struct Manga {
    pub id: String,
    pub cover: String,
    pub title: String,
    pub author: String,
    pub artist: String,
    pub description: String,
    pub url: String,
    pub categories: Vec<String>,
    pub status: MangaStatus,
    pub nsfw: MangaContentRating,
    pub viewer: MangaViewer,
}

/// One page of a listing and whether more pages follow.
#[derive(Debug)]
pub struct MangaPageResult {
    pub manga: Vec<Manga>,
    pub has_more: bool,
}

/// One chapter entry; `volume` and `chapter` hold the decimal tokens
/// read from the markup, when one was found.
#[derive(Debug)]
pub struct Chapter {
    pub id: String,
    pub url: String,
    pub title: String,
    pub volume: Option<String>,
    pub chapter: Option<String>,
    pub date_updated: Option<String>,
}

/// A listing filter, each variant carrying its typed payload.
#[derive(Debug)]
pub enum Filter {
    Title(String),
    Select { name: String, value: i64 },
    Genre { id: String, value: i64 },
    Check { id: String, value: i64 },
    Other,
}

/// The two parts of a deep link into a source: a series and possibly
/// a chapter inside it.
#[derive(Debug)]
pub struct DeepLink {
    pub manga_id: Option<String>,
    pub chapter_id: Option<String>,
}

/// How a listing request reaches a site.
#[derive(Debug)]
pub enum ListRequest {
    Get { url: String },
    Post { url: String, body: String },
}

/// The spec-level shape of a [`ListRequest`]: its URL and body as
/// character sequences.
pub enum ListRequestV {
    Get { url: Seq<char> },
    Post { url: Seq<char>, body: Seq<char> },
}

impl View for ListRequest {
    type V = ListRequestV;

    open spec fn view(&self) -> ListRequestV {
        match self {
            ListRequest::Get { url } => ListRequestV::Get { url: url@ },
            ListRequest::Post { url, body } => ListRequestV::Post { url: url@, body: body@ },
        }
    }
}

} // verus!
