//! The records both sources produce for the reader app: manga, chapters and
//! their status/rating/viewer enumerations, and chapter pages. Integer chapter numbers stand for
//! the app's floating-point ones (the app converts).
use vstd::prelude::*;

use crate::text;

verus! {

#[derive(Clone, Copy, Debug, PartialEq, Eq, Structural)]
pub enum MangaStatus {
    Unknown,
    Ongoing,
    Completed,
    Cancelled,
    Hiatus,
}

#[derive(Clone, Copy, Debug, PartialEq, Eq, Structural)]
pub enum ContentRating {
    Unknown,
    Safe,
    Suggestive,
    NSFW,
}

#[derive(Clone, Copy, Debug, PartialEq, Eq, Structural)]
pub enum Viewer {
    Unknown,
    RightToLeft,
    LeftToRight,
    Vertical,
    Webtoon,
}

/// A chapter entry.
pub struct Chapter {
    pub key: String,
    pub title: Option<String>,
    /// The chapter number (a whole number here).
    pub chapter_number: Option<i32>,
    pub url: Option<String>,
    pub language: Option<String>,
}

pub struct ChapterView {
    pub key: Seq<char>,
    pub title: Option<Seq<char>>,
    pub chapter_number: Option<i32>,
    pub url: Option<Seq<char>>,
    pub language: Option<Seq<char>>,
}

impl View for Chapter {
    type V = ChapterView;

    open spec fn view(&self) -> ChapterView {
        ChapterView {
            key: self.key@,
            title: text::opt_view(self.title),
            chapter_number: self.chapter_number,
            url: text::opt_view(self.url),
            language: text::opt_view(self.language),
        }
    }
}

/// A manga entry (listing card or full detail).
pub struct Manga {
    pub key: String,
    pub title: String,
    pub cover: Option<String>,
    pub authors: Option<Vec<String>>,
    pub description: Option<String>,
    pub url: Option<String>,
    pub tags: Option<Vec<String>>,
    pub status: MangaStatus,
    pub content_rating: ContentRating,
    pub viewer: Viewer,
    pub chapters: Option<Vec<Chapter>>,
}

pub struct MangaView {
    pub key: Seq<char>,
    pub title: Seq<char>,
    pub cover: Option<Seq<char>>,
    pub authors: Option<Seq<Seq<char>>>,
    pub description: Option<Seq<char>>,
    pub url: Option<Seq<char>>,
    pub tags: Option<Seq<Seq<char>>>,
    pub status: MangaStatus,
    pub content_rating: ContentRating,
    pub viewer: Viewer,
    pub chapters: Option<Seq<ChapterView>>,
}

pub open spec fn opt_views(o: Option<Vec<String>>) -> Option<Seq<Seq<char>>> {
    match o {
        Some(v) => Some(text::views(v@)),
        None => None,
    }
}

pub open spec fn chapter_views(v: Seq<Chapter>) -> Seq<ChapterView> {
    v.map_values(|c: Chapter| c@)
}

impl View for Manga {
    type V = MangaView;

    open spec fn view(&self) -> MangaView {
        MangaView {
            key: self.key@,
            title: self.title@,
            cover: text::opt_view(self.cover),
            authors: opt_views(self.authors),
            description: text::opt_view(self.description),
            url: text::opt_view(self.url),
            tags: opt_views(self.tags),
            status: self.status,
            content_rating: self.content_rating,
            viewer: self.viewer,
            chapters: match self.chapters {
                Some(v) => Some(chapter_views(v@)),
                None => None,
            },
        }
    }
}

/// A page of manga entries and whether another page follows.
pub struct MangaPageResult {
    pub entries: Vec<Manga>,
    pub has_next_page: bool,
}

pub open spec fn manga_views(v: Seq<Manga>) -> Seq<MangaView> {
    v.map_values(|m: Manga| m@)
}

/// A page of a chapter: its image URL and, for a scrambled image, the
/// context entries that tell the image processor to unscramble it.
pub struct Page {
    pub url: String,
    pub context: Option<Vec<(String, String)>>,
}

/// The entries of a page context, by their views.
pub open spec fn entry_views(c: Seq<(String, String)>) -> Seq<(Seq<char>, Seq<char>)> {
    c.map_values(|kv: (String, String)| (kv.0@, kv.1@))
}

pub open spec fn context_view(c: Option<Vec<(String, String)>>) -> Option<Seq<(Seq<char>, Seq<char>)>> {
    match c {
        Some(v) => Some(entry_views(v@)),
        None => None,
    }
}

pub struct PageView {
    pub url: Seq<char>,
    pub context: Option<Seq<(Seq<char>, Seq<char>)>>,
}

impl View for Page {
    type V = PageView;

    open spec fn view(&self) -> PageView {
        PageView {
            url: self.url@,
            context: context_view(self.context),
        }
    }
}

/// Where a deep link leads.
pub enum DeepLink {
    Manga { key: String },
    Chapter { manga_key: String, key: String },
}

pub enum DeepLinkView {
    Manga(Seq<char>),
    Chapter(Seq<char>, Seq<char>),
}

impl View for DeepLink {
    type V = DeepLinkView;

    open spec fn view(&self) -> DeepLinkView {
        match self {
            DeepLink::Manga { key } => DeepLinkView::Manga(key@),
            DeepLink::Chapter { manga_key, key } => DeepLinkView::Chapter(manga_key@, key@),
        }
    }
}

pub open spec fn opt_link_view(r: Option<DeepLink>) -> Option<DeepLinkView> {
    match r {
        Some(l) => Some(l@),
        None => None,
    }
}

/// The layout of a home component.
#[derive(Clone, Copy, Debug, PartialEq, Eq, Structural)]
pub enum HomeSectionKind {
    BigScroller,
    Scroller,
    MangaList { ranking: bool, page_size: i32 },
}

/// A home component: title, subtitle, layout and manga entries.
pub struct HomeComponent {
    pub title: Option<String>,
    pub subtitle: Option<String>,
    pub kind: HomeSectionKind,
    pub entries: Vec<Manga>,
}

pub struct HomeComponentView {
    pub title: Option<Seq<char>>,
    pub subtitle: Option<Seq<char>>,
    pub kind: HomeSectionKind,
    pub entries: Seq<MangaView>,
}

impl View for HomeComponent {
    type V = HomeComponentView;

    open spec fn view(&self) -> HomeComponentView {
        HomeComponentView {
            title: text::opt_view(self.title),
            subtitle: text::opt_view(self.subtitle),
            kind: self.kind,
            entries: manga_views(self.entries@),
        }
    }
}

pub open spec fn component_views(v: Seq<HomeComponent>) -> Seq<HomeComponentView> {
    v.map_values(|c: HomeComponent| c@)
}

} // verus!
