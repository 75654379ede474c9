//! Article extraction: turns the markup of a news page into markdown-like
//! text, a title and a list of images.
//!
//! The pipeline (`extract`) parses the markup (`html`) into a document
//! (`dom`, read through `query`), chooses the element that holds the
//! article (`container`), renders it (`walker`) under the skip rules
//! (`rules`), tidies the text (`markdown`) and, if the walk met no image,
//! puts in the fallback image of the document (`fallback`, `image`,
//! `srcset`, `json`). `service` holds the decisions of the HTTP service
//! around the pipeline, `laws` what holds of every extraction.
//!
//! Text is `Vec<char>` inside the library (`text`, `words`); patterns,
//! URLs, JSON and HTML are handled by the crates `regex`, `url`,
//! `serde_json` and `scraper` (`pattern`, `links`, `json`, `html`).

pub mod container;
pub mod dom;
pub mod extract;
pub mod fallback;
pub mod html;
pub mod image;
pub mod json;
pub mod laws;
pub mod links;
pub mod markdown;
pub mod models;
pub mod pattern;
pub mod query;
pub mod rules;
pub mod service;
pub mod srcset;
pub mod text;
pub mod walker;
pub mod words;

pub use extract::{extract_from_html, ExtractResult};
pub use markdown::{ensure_markdown_title, insert_fallback_image};
pub use models::{ExtractRequest, ExtractResponse, ImageInfo};
pub use service::ExtractionError;
pub use words::normalize_text;
