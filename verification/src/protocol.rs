//! Wire formats of the media streams and of the control channel.
pub mod audio;
pub mod control;
pub mod video;
