//! Verified core of a Mumble voice client daemon: the decisions that its
//! control channel, voice channel and audio tasks take on each packet, tick
//! and captured frame, and the settings and messages it works with.

pub mod voice;
pub mod keys;
pub mod audio;
pub mod tcp;
pub mod udp;
pub mod error;
pub mod config;
pub mod command;
