//! Building blocks of a small organiser for image files: an approximate
//! string matcher for interactive search, the ranking of search results, the
//! metadata that is searched, and the bookkeeping for browsing a folder of
//! images.

pub mod images;
pub mod matcher;
pub mod meta;
pub mod navigation;
pub mod ranking;
