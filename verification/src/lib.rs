//! Chunked video encoding: the rules of a run, apart from files, processes and native libraries.

pub mod args;
pub mod bits;
pub mod color;
pub mod command;
pub mod encoder;
pub mod frames;
pub mod num;
pub mod order;
pub mod outpath;
pub mod paths;
pub mod progs;
pub mod quote;
pub mod report;
pub mod resume;
pub mod screen;
pub mod select;
pub mod session;
pub mod startup;
pub mod svt;
pub mod text;
pub mod tq;
pub mod video;
pub mod vvenc;
