//! The frontend: its path, and who may use it.

use crate::demux::{dvb_path, make_dvb_path};
use crate::error::{Error, ErrorView};
use crate::text::{decimal, decimal_text};
use vstd::prelude::*;

verus! {

/// The path of a frontend.
pub fn frontend_path(adapter: u32, index: u32) -> (path: String)
    ensures
        path@ == dvb_path(adapter, "frontend"@, index),
{
    make_dvb_path(adapter, "frontend", index)
}

/// The file that is locked by who uses an adapter.
pub open spec fn adapter_lock(adapter: u32) -> Seq<char> {
    "/tmp/dvbr-adapter"@ + decimal(adapter as nat) + ".lock"@
}

/// The file that is locked by who uses an adapter.
pub fn adapter_lock_path(adapter: u32) -> (path: String)
    ensures
        path@ == adapter_lock(adapter),
{
    let mut path = "/tmp/dvbr-adapter".to_owned();
    path.append(&decimal_text(adapter as u128));
    path.append(".lock");
    path
}

/// The error where an adapter is in use.
pub fn adapter_in_use(adapter: u32) -> (e: Error)
    ensures
        e@ == ErrorView::Msg(
            "DVB adapter "@ + decimal(adapter as nat) + " is already in use (lock: "@
                + adapter_lock(adapter) + ")"@,
        ),
{
    let mut text = "DVB adapter ".to_owned();
    text.append(&decimal_text(adapter as u128));
    text.append(" is already in use (lock: ");
    text.append(&adapter_lock_path(adapter));
    text.append(")");
    Error::Msg(text)
}

} // verus!
