//! A danmaku (scrolling comment) distribution pipeline.
//!
//! Short ephemeral text messages arrive from many producers, are normalized
//! into packets tagged with a destination group, pass through an ordered
//! filter chain (logging, duplicate suppression, blacklist), and are fanned
//! out to many viewers subscribed to that group.

pub mod broadcast;
pub mod buffer;
pub mod config;
pub mod cqcode;
pub mod danmaku;
pub mod laws;
pub mod limiter;
pub mod middleware;
pub mod onebot;
pub mod session;
pub mod text;
pub mod webhook;

pub use danmaku::Danmaku;
pub use danmaku::DanmakuPacket;
pub use danmaku::DanmakuView;
pub use danmaku::PacketView;
pub use danmaku::opt_str_view;
