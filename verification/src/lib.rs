//! Core of an RTSP/1.0 server: request parsing, response serialization,
//! SDP generation, RTP packetization (H.264), session management, and
//! RTP delivery planning.
//!
//! Everything that decides or computes lives here and is verified; sockets,
//! threads, and logging live outside the library.

pub mod error;
pub mod fanout;
pub mod h264;
pub mod handler;
pub mod num;
pub mod request;
pub mod response;
pub mod rtp;
pub mod sdp;
pub mod session;
pub mod text;
