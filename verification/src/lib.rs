//! Verified core of the screen-sharing producer: the H.264 Annex B reader
//! that cuts the capture's byte stream into NAL units, the signalling
//! decisions taken for each websocket message (with the buffer of early ICE
//! candidates), and the arguments of the capture process.

pub mod buffers;
pub mod capture;
pub mod h264;
pub mod id_map;
pub mod message;
pub mod nal_laws;
pub mod signaling;
