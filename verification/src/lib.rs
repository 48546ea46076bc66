//! Core of a terminal log-file viewer: a multi-format log parser with
//! multi-line record reconstruction, per-file and combined view models
//! (filtering, searching, scrolling), and the state rules that coordinate
//! tabs, tail-following and view modes.

pub mod app;
pub mod highlight;
pub mod input_element;
pub mod json;
pub mod keys;
pub mod parser;
pub mod pattern;
pub mod seq_util;
pub mod sorting;
pub mod strutil;
pub mod tab;
