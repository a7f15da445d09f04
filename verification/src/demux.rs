//! The demultiplexer and its output: their paths, and what is done with what is
//! read.

use crate::error::{Error, ErrorView};
use crate::text::{decimal, decimal_text};
use vstd::prelude::*;

verus! {

/// `/dev/dvb/adapter0/demux0`.
pub open spec fn dvb_path(adapter: u32, kind: Seq<char>, index: u32) -> Seq<char> {
    "/dev/dvb/adapter"@ + decimal(adapter as nat) + seq!['/'] + kind + decimal(index as nat)
}

/// The path of a device of an adapter.
pub fn make_dvb_path(adapter: u32, kind: &str, index: u32) -> (path: String)
    ensures
        path@ == dvb_path(adapter, kind@, index),
{
    let mut path = "/dev/dvb/adapter".to_owned();
    path.append(&decimal_text(adapter as u128));
    path.push('/');
    path.append(kind);
    path.append(&decimal_text(index as u128));
    assert(path@ =~= dvb_path(adapter, kind@, index));
    path
}

/// The path of a demultiplexer.
pub fn demux_path(adapter: u32, index: u32) -> (path: String)
    ensures
        path@ == dvb_path(adapter, "demux"@, index),
{
    make_dvb_path(adapter, "demux", index)
}

/// The path of the output of a demultiplexer.
pub fn dvr_path(adapter: u32, index: u32) -> (path: String)
    ensures
        path@ == dvb_path(adapter, "dvr"@, index),
{
    make_dvb_path(adapter, "dvr", index)
}

// ---- Streaming -------------------------------------------------------------

/// How long a stream may be silent, in seconds.
pub const DVR_STALL_SECS: u64 = 30;

/// What came of reading a stream.
#[derive(Debug, Clone, Copy)]
pub enum StreamEvent {
    /// How many bytes came.
    Bytes(usize),
    Interrupted,
    /// Any other failure.
    Failed,
}

/// What is done behind a read of a stream.
#[derive(Debug)]
pub enum StreamStep {
    /// Write the bytes, and read on.
    Write(usize),
    Read,
    /// Wait a little, then read.
    PauseAndRead,
    /// Report the failure of the device.
    Fail,
    GiveUp(Error),
}

/// What is done behind a read of a stream that has been silent for
/// `silent_secs`. Silence is waited for up to the limit.
pub fn stream_step(event: StreamEvent, silent_secs: u64) -> (step: StreamStep)
    ensures
        match event {
            StreamEvent::Interrupted => step is Read,
            StreamEvent::Failed => step is Fail,
            StreamEvent::Bytes(n) => if n > 0 {
                step == StreamStep::Write(n)
            } else if silent_secs < DVR_STALL_SECS {
                step is PauseAndRead
            } else {
                step matches StreamStep::GiveUp(e) && e@ == ErrorView::Msg(
                    "DVR delivered no data for "@ + decimal(DVR_STALL_SECS as nat)
                        + "s; aborting (signal loss or driver hang?)"@,
                )
            },
        },
{
    match event {
        StreamEvent::Interrupted => StreamStep::Read,
        StreamEvent::Failed => StreamStep::Fail,
        StreamEvent::Bytes(n) => {
            if n > 0 {
                return StreamStep::Write(n);
            }
            if silent_secs < DVR_STALL_SECS {
                return StreamStep::PauseAndRead;
            }
            let mut text = "DVR delivered no data for ".to_owned();
            text.append(&decimal_text(DVR_STALL_SECS as u128));
            text.append("s; aborting (signal loss or driver hang?)");
            StreamStep::GiveUp(Error::Msg(text))
        },
    }
}

} // verus!
