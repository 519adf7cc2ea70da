//! Interactive plot configuration over imported sensor readings.
//!
//! A plot has one X row and any number of curves, each a group of four
//! slots: the data field, the serial number and two more that depend on the
//! first. What a slot offers depends on the catalog of sensors and on what
//! the slots above it have chosen, and a commit brings everything below it
//! in line. From a complete configuration the library plans the queries
//! that read the series of every curve.
//!
//! - [`catalog`], [`candidates`]: the sensors and the lists the menus offer.
//! - [`input`], [`menu`], [`field`]: the state of a single slot.
//! - [`model`], [`graph`], [`keys`]: the configuration, its transitions and
//!   the keys that drive them; [`laws`] says what holds of all of them.
//! - [`engine`], [`binning`]: from a configuration to queries, and from
//!   rows to bins.
//! - [`import`], [`rows`]: from exports of readings to tables and rows.
//! - [`filepicker`], [`tabs`], [`window`]: lists with a cursor.
//! - [`text`]: strings as sequences of characters.

pub mod binning;
pub mod candidates;
pub mod catalog;
pub mod engine;
pub mod field;
pub mod filepicker;
pub mod graph;
pub mod import;
pub mod input;
pub mod keys;
pub mod laws;
pub mod menu;
pub mod model;
pub mod rows;
pub mod tabs;
pub mod text;
pub mod window;
