//! Header checks for asynchronous transports.
use vstd::prelude::*;
use crate::ipc::{IpcHeader, FrameType, frame_of_code};
use crate::ipc::frame_sync;

verus! {


/// Whether a received header is a heartbeat.
pub fn is_heartbeat(header: &IpcHeader) -> (r: bool)
    ensures
        r == (frame_of_code(header.type_ver / 16) == Some(FrameType::Heartbeat)),
{
    frame_sync::is_heartbeat(header)
}

} // verus!
