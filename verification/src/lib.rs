//! The decisions, formats and bookkeeping of a 3D fractal-flame renderer.

pub mod accumulate;
pub mod animate;
pub mod args;
pub mod bytes;
pub mod camera;
pub mod contact;
pub mod filename;
pub mod flame;
pub mod grade_file;
pub mod grading;
pub mod h264;
pub mod half;
pub mod haze;
pub mod history;
pub mod image_file;
pub mod indicators;
pub mod info;
pub mod info_paint;
pub mod interrupt;
pub mod keys;
pub mod layout;
pub mod mutate;
pub mod num;
pub mod number;
pub mod offline;
pub mod palette;
pub mod paint;
pub mod path;
pub mod pick;
pub mod plain;
pub mod prefs;
pub mod quantity;
pub mod randomize;
pub mod rng;
pub mod scene;
pub mod sheet;
pub mod stats;
pub mod text;
pub mod tiles;
pub mod timing;
pub mod variants;
