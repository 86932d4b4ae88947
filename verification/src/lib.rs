//! Verified core of an RSS-to-EPUB digest service.
#![allow(unused_imports)]

pub mod book;
pub mod calendar;
pub mod clean;
pub mod db;
pub mod delivery;
pub mod email;
pub mod epub_gen;
pub mod feed;
pub mod links;
pub mod models;
pub mod order;
pub mod plan;
pub mod processor;
pub mod schedule;
pub mod scheduler;
pub mod sequencer;
pub mod templates;
pub mod text;
pub mod toc;
pub mod unicode;
