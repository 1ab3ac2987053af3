//! WHCanRC Assisted Listening: the rules of a server that streams audio to browsers on the local
//! network with little delay.
//!
//! The library decides and computes; it opens no device, socket or file. Programs around it do so,
//! hand in what happened, and carry out what is decided here.
pub mod audio;
pub mod banner;
pub mod config;
pub mod convert;
pub mod latency_test;
pub mod qos;
pub mod server;
pub mod service;
pub mod text;
pub mod tray;
pub mod webrtc;
pub mod webtransport;
