//! Extraction of playable media links from web-page markup.
//!
//! Given a page's markup and its URL, the library finds every `audio`,
//! `video`, `source`, `track` and `a` element, classifies each candidate
//! link by the MIME category of its file extension, resolves surviving
//! links to absolute form against the page URL, and returns the distinct
//! (file name, absolute URL) pairs in first-occurrence order.

pub mod classify;
pub mod laws;
pub mod mime;
pub mod pipeline;
pub mod resolve;
pub mod select;
pub mod text;
