//! Lays out styled, word-wrapped text of a markdown document in a scrollable viewport.
//!
//! Structural events become blocks of styled runs (`document`), the runs' words are
//! positioned under word wrap and block margins (`layout`), and a viewport scrolls over
//! the result (`viewport`).
pub mod document;
pub mod layout;
pub mod markdown;
pub mod measure;
pub mod style;
pub mod text;
pub mod viewport;
