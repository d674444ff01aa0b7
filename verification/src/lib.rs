//! Keyword search over the text of web pages, and the textual report built from it.
//!
//! A crawl finds its pages (`links`), scans each page's HTML for the keyword (`page`,
//! `search`), turns each scan into a `ReportEntry` (`report`), keeps the reports of the pages
//! on which the keyword appears (`crawl`) and renders them as the text shown to the user
//! (`render`). Fetching pages, the sentiment analysis of matching text and the user interface
//! are left to the program that uses this library.

pub mod crawl;
pub mod html;
pub mod links;
pub mod page;
pub mod render;
pub mod report;
pub mod search;
pub mod text;

pub use crawl::{collect_reports, SearchedPage};
pub use links::{
    google_result_links, google_search_url, keyword_pattern, link_targets, site_source,
    split_websites, SiteSource,
};
pub use page::{scan_page, PageScan};
pub use render::{format_the_result, output_box_text};
pub use report::{keep_found_reports, ReportEntry};
pub use search::{find_keyword_matches, KeywordMatch};
