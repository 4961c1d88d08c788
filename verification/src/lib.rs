//! Core of a live camera viewer.
pub mod camera;
pub mod clock;
pub mod config;
pub mod control;
pub mod decoder;
pub mod dropdown;
pub mod error;
pub mod listing;
pub mod manager;
pub mod mosaic;
pub mod nal;
pub mod platform;
pub mod policy;
pub mod round;
pub mod rtsp;
pub mod session;
pub mod settings;
pub mod shared;
pub mod single;
pub mod state;
pub mod stored;
pub mod supervisor;
pub mod text;
pub mod text_input;
pub mod tile;
pub mod timing;
pub mod window;
