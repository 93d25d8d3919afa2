//! Brace: a small static site generator.
//!
//! The library holds the site's logic: front-matter splitting, post
//! assembly and ordering, slugs and draft documents, request path
//! resolution and content types, and the date formats the templates use.

pub mod text;
pub mod date;
pub mod paths;
pub mod serve;
pub mod config;
pub mod content;
pub mod listing;
pub mod new;
pub mod publish;
pub mod highlight;
pub mod templates;
pub mod site;
