//! Logic of a gateway that pulls RTSP camera streams and serves them to
//! browsers over WebRTC and over WebSocket (FLV or MPEG-TS).

pub mod api;
pub mod camera_url;
pub mod codec;
pub mod error;
pub mod ffmpeg_puller;
pub mod flv;
pub mod json;
pub mod live;
pub mod live_session;
pub mod payload;
pub mod registry;
pub mod sdp;
pub mod signaling;
pub mod stream;
pub mod stream_laws;
pub mod text;
