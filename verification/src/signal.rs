//! The signal of a frontend.

use crate::text::{decimal, decimal_text, numeral, numeral_chars, pad, padded, text_of};
use vstd::prelude::*;

verus! {

/// What a frontend says of its signal. What it cannot tell is missing.
#[derive(Debug, Clone, Copy, PartialEq, Eq, Structural)]
pub struct SignalStats {
    pub lock_mask: u32,
    pub signal_strength_0_ffff: Option<u16>,
    pub snr_0_ffff: Option<u16>,
}

/// A line with a value, if there is one.
pub open spec fn value_line(label: Seq<char>, value: Option<u16>) -> Seq<char> {
    match value {
        Some(n) => label + decimal(n as nat) + seq!['\n'],
        None => Seq::empty(),
    }
}

/// What a frontend says of its signal, in lines.
pub open spec fn stats_text(s: SignalStats) -> Seq<char> {
    "status mask: 0x"@ + padded(numeral(s.lock_mask as nat, 16), 8, '0') + " (HAS_LOCK=0x10)\n"@
        + value_line("signal (legacy ioctl): "@, s.signal_strength_0_ffff) + value_line(
        "snr (legacy ioctl): "@,
        s.snr_0_ffff,
    )
}

fn make_value_line(label: &str, value: Option<u16>) -> (out: String)
    ensures
        out@ == value_line(label@, value),
{
    match value {
        Some(n) => {
            let mut out = label.to_owned();
            out.append(&decimal_text(n as u128));
            out.push('\n');
            assert(out@ =~= value_line(label@, value));
            out
        },
        None => String::new(),
    }
}

impl SignalStats {
    /// What the frontend says of its signal, in lines.
    pub fn text(&self) -> (out: String)
        ensures
            out@ == stats_text(*self),
    {
        let mut out = "status mask: 0x".to_owned();
        out.append(&text_of(&pad(numeral_chars(self.lock_mask as u128, 16), 8, '0')));
        out.append(" (HAS_LOCK=0x10)\n");
        out.append(&make_value_line("signal (legacy ioctl): ", self.signal_strength_0_ffff));
        out.append(&make_value_line("snr (legacy ioctl): ", self.snr_0_ffff));
        out
    }
}

} // verus!
