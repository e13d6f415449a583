//! Log parsing, duplicate collapsing, log discovery and viewer state for
//! SpolsMVC and Laravel log files.
pub mod text;
pub mod level;
pub mod entry;
pub mod parse;
pub mod logfile;
pub mod discovery;
pub mod viewer;
pub mod display;
pub mod labels;
