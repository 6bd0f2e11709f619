//! A per-terminal CPU and memory monitor for Ghostty.
pub mod calendar;
pub mod chart;
pub mod civil;
pub mod columns;
pub mod command_line;
pub mod demo;
pub mod grouping;
pub mod history;
pub mod input;
pub mod journal;
pub mod labels;
pub mod lists;
pub mod measure;
pub mod memory;
pub mod monitor_view;
pub mod number;
pub mod places;
pub mod presence;
pub mod process;
pub mod report;
pub mod row_alignment;
pub mod screen;
pub mod service;
pub mod session;
pub mod snapshot;
pub mod sorting;
pub mod state;
pub mod tabs;
pub mod terminals;
pub mod text;
pub mod text_map;
pub mod tracker;
pub mod tree;
pub mod usage;
pub mod usage_view;
