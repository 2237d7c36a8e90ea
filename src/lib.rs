//! A catalog of comic archives: scanning results, facets, filtering and
//! sorting, the canonical query string, and page navigation.
pub mod text;
pub mod query;
pub mod order;
pub mod catalog;
pub mod navigate;

pub use catalog::{split_genres, split_name, select_files, matches_query, AppState, ComicInfo, File};
pub use navigate::{find_file, page_links, page_order, resolve_page, select_pages, should_expose, PageLinks, PageResolution};
pub use query::{genre_search_url, render_sort_link, year_search_url, Direction, FileField, FileSort, IndexQuery, InvalidQuery};
