//! Stream supervision and fan-out engine for live camera feeds: worker
//! argument construction, fragmented-MP4 and MJPEG stream parsing, the
//! late-joiner cache, the reconnect state machine, the supervisor registry
//! and the small HTTP control surface.
pub mod config;
pub mod mp4;
pub mod fmp4;
pub mod cache;
pub mod text;
pub mod supervisor;
pub mod args;
pub mod registry;
pub mod api;
pub mod mjpeg;
pub mod files;
pub mod health;
