//! Builds a title → page id → knowledge-base id lookup table from the
//! `INSERT` statements of three SQL table dumps (pages, page properties,
//! redirects).

pub mod dump;
pub mod fold;
pub mod index;
pub mod last_rows;
pub mod laws;
pub mod output;
pub mod pages;
pub mod pipeline;
pub mod prop_rows;
pub mod props;
pub mod redirects;
pub mod resolution;
pub mod text;

