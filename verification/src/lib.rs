//! Extraction of the case-count tables of a situation report from the lines
//! of its text.
//!
//! The report's tables do not survive text extraction intact: cells wrap over
//! lines, headers repeat, names are broken. The stages here turn the line
//! sequence back into typed rows, and the rows into the output records:
//!
//! * [`lines`]: cut the lines down to the table, mend wrapped count cells;
//! * [`batch`]: group the lines into one record per row, drop summary rows;
//! * [`schema`]: map the records onto regions and countries;
//! * [`pipeline`]: the stages in a row, from the text of a report.
//!
//! [`discover`] decides which link of the index page leads to the latest
//! report. [`layout`] holds the texts that the stages go by, [`cell`] the
//! pattern and the numbers of a count cell, [`text`] the operations on
//! character sequences that the rest is built on.

pub mod batch;
pub mod cell;
pub mod discover;
pub mod error;
pub mod layout;
pub mod lines;
pub mod pipeline;
pub mod schema;
pub mod text;
