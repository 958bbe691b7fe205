//! A tracker for television shows: the shows a viewer is watching, plans to
//! watch or has completed, kept in one sorted partition per category, with a
//! searchable, paginated view on top.
//!
//! The library holds the shows in memory and decides what happens to them.
//! It performs no input or output: a change of the collection yields the
//! write that the store of the shows is to perform, and the caller performs
//! it.
//!
//! - `show`: a show, its category, its searchable name.
//! - `collection`, `categorized`: the partitions, as they are reasoned about
//!   and as they are kept.
//! - `search`: the match of names against a search term.
//! - `view_model`, `shows_view`: the visible set and its pages, as they are
//!   reasoned about and as they are kept.
//! - `ui`: the form for new shows, and the modifications that are queued
//!   while a page is drawn.
//! - `shows_db`: the writes for the store, and the rows that are loaded.
//! - `shows`: a plain list of shows without categories.
//! - `number`, `order`, `text`: decimal numbers as text, the order of the
//!   keys, and the texts that names are held in.

pub mod categorized;
pub mod collection;
pub mod number;
pub mod order;
pub mod search;
pub mod show;
pub mod shows;
pub mod shows_db;
pub mod shows_view;
pub mod text;
pub mod ui;
pub mod view_model;
