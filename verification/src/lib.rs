//! Verified core of a Markdown-to-document tool: the section-wrapping
//! transformation that encloses each heading and its following content in
//! nested `<div>` containers, together with the option-merging rules of the
//! command line front end. All text is handled as UTF-8 bytes.
pub mod config;
pub mod html_gen;
pub mod rewrite;
pub mod scan;
pub mod text;
