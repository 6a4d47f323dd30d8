//! Evaluation reports from survey exports.
//!
//! A survey export is a text of several named sections, each a delimited
//! table that declares neither its delimiter nor the form of its numbers.
//! The library splits such an export into its sections ([`preproc`]),
//! writes comma decimals with a point ([`normalize`]), detects the
//! delimiter of a section ([`delimiter`]) and reads the section as a table
//! of named columns ([`table`]).
//!
//! From the table and a document of response pools ([`json`]) it selects,
//! for each category, a text from the pool whose threshold is the greatest
//! that does not exceed the mean of the category ([`select`]), and puts the
//! texts into a template ([`report`]). It also gathers the means of several
//! exports, question by question ([`merge`]).
//!
//! Numbers are not computed with here: where a text stands for a number,
//! the caller says so, and gives the rank and the ten-thousandths of the
//! number ([`select::Number`]).

pub mod chance;
pub mod chars;
pub mod decode;
pub mod delimiter;
pub mod error;
pub mod json;
pub mod menu;
pub mod merge;
pub mod normalize;
pub mod output;
pub mod preproc;
pub mod records;
pub mod report;
pub mod search;
pub mod select;
pub mod table;
pub mod text;
pub mod text_map;
